//! Sending a packet: wake the Bluetooth core, put the packet into the outgoing
//! ring, publish the new write pointer and raise an interrupt.

use vstd::arithmetic::div_mod::*;
use vstd::prelude::*;

use crate::action::{
    answered, asks, logged, optional, packet_in, word_in, word_of, words_of, Action, ActionView,
    Actions, Ask, Reply,
};
use crate::consts::{
    BTSDIO_FWBUF_SIZE, BTSDIO_OFFSET_HOST2BT_IN, BTSDIO_OFFSET_HOST2BT_OUT,
    BTSDIO_OFFSET_HOST_WRITE_BUF, BTSDIO_REG_BT_AWAKE_BITMASK, BT_HCI_MTU, HOST_CTRL_REG_ADDR,
    MAX_RAM_BASE,
};
use crate::diff::{compare, diff_of, Diff};
use crate::host_ctrl::{
    update_begin, update_next, update_write, HostCtrl, HostCtrlChange, HostCtrlUpdate, UpdateStage,
};
use crate::memory::{
    law_memory_kept, law_performed_in_turn, performed, performed_all, stored, Memory,
};
use crate::options::Options;
use crate::packet::BtPacketBuf;
use crate::pointer::{
    pointer_asks, pointer_reads, pointer_reports, pointer_value, pointer_words, read_ring_pointer,
    ring_pointer_read, PointerStage, PointerWrite, READBACK_ATTEMPTS,
};
use crate::poll::{status_read, Poll, PollStage, POLL_ATTEMPTS};
use crate::report::{DiagPoint, Fault, Report, SamplePhase};
use crate::repro::{
    hci_packet_diag, inspect_repro_hci_packet, placed, tx_diag_record_runner, DiagCounters,
    ReproDiag, SUMMARY_EVERY,
};
use crate::ring::{
    frame_header, free, header_len, join_blocks, joined, law_frame_round_trip,
    law_free_bytes_are_free, law_ring_store_in_pieces, law_ring_writes_store, lemma_joined_len,
    padded_len, ring_asks, ring_free, ring_loaded, ring_move, ring_moved, ring_pointer, ring_read,
    ring_reads, ring_stored, ring_used, ring_write, ring_writes,
};
use crate::util::{round_up, u32_bytes};

verus! {

/// How long to wait before a packet is published, in microseconds.
pub const BT_RING_TX_PUBLISH_DELAY_US: u64 = 10;

/// How long to wait before the interrupt, in microseconds.
pub const BT_RING_TX_INTR_DELAY_US: u64 = 10;

/// What sending packets keeps from one packet to the next.
#[derive(Clone, Copy, PartialEq, Eq, Structural, Debug)]
pub struct TxState {
    /// Where in the outgoing ring the next frame goes.
    pub h2b_write_pointer: u32,
    /// The test packets inspected on their way out.
    pub diag: DiagCounters,
    /// The test packets read back from the ring.
    pub readback: DiagCounters,
}

/// The test packets counted on their way out. A program keeps one such count for
/// all of its transports.
#[derive(Clone, Copy, PartialEq, Eq, Structural, Debug)]
pub struct TxCounters {
    /// Those inspected.
    pub diag: DiagCounters,
    /// Those read back from the ring.
    pub readback: DiagCounters,
}

impl TxCounters {
    /// Nothing counted yet.
    pub fn new() -> (counters: Self)
        ensures
            counters == (TxCounters {
                diag: DiagCounters { checked: 0, bad: 0 },
                readback: DiagCounters { checked: 0, bad: 0 },
            }),
    {
        TxCounters { diag: DiagCounters::new(), readback: DiagCounters::new() }
    }
}

/// Where the sending of a packet stands.
#[derive(Clone, Copy)]
pub enum TxStage {
    /// The Bluetooth core is being woken.
    Waking(HostCtrlUpdate),
    /// It has been woken, and its answer is awaited.
    Awaiting(Poll),
    /// The packet has been asked for.
    Fetching,
    /// The packet has been inspected, and the read pointer has been asked for.
    Offering { packet: BtPacketBuf, found: Option<ReproDiag> },
    /// The packet stands in the ring from `start` on, and has been asked for
    /// again.
    ReadingBack { start: u32, packet: BtPacketBuf, diag: ReproDiag },
    /// The write pointer is being published.
    Publishing(PointerWrite),
    /// The host control register has been asked for.
    Signalling,
    Done,
    Failed(Fault),
}

/// The sending of one packet.
#[derive(Clone, Copy)]
pub struct HciWrite {
    pub stage: TxStage,
}

/// One step of sending a packet: what is kept, the register and the stage after
/// it, and the actions asked for.
pub struct TxStep {
    pub tx: TxState,
    pub ctrl: HostCtrl,
    pub stage: TxStage,
    pub acts: Seq<ActionView>,
}

impl TxStep {
    /// The step with other actions before it.
    pub open spec fn after(self, acts: Seq<ActionView>) -> TxStep {
        TxStep { acts: acts + self.acts, ..self }
    }
}

/// The length of a packet without its type byte.
pub open spec fn body_len(packet: BtPacketBuf) -> int {
    packet.len - 1
}

/// How many bytes a packet takes up in the ring.
pub open spec fn frame_len(packet: BtPacketBuf) -> int {
    4 + padded_len(body_len(packet))
}

/// The header of the frame of a packet.
pub open spec fn packet_header(packet: BtPacketBuf) -> Seq<u8> {
    frame_header(body_len(packet), packet.buf@[0])
}

/// What follows the header in the frame of a packet: the packet without its
/// type byte, and the bytes behind it in its buffer as far as they are needed to
/// fill the last word.
pub open spec fn packet_payload(packet: BtPacketBuf) -> Seq<u8> {
    packet.buf@.subrange(1, 1 + padded_len(body_len(packet)))
}

/// Asks for the host control register, which raises the interrupt.
pub open spec fn signal(opts: Options, tx: TxState, ctrl: HostCtrl) -> TxStep {
    TxStep {
        tx,
        ctrl,
        stage: TxStage::Signalling,
        acts: optional(opts.tx_intr_delay, ActionView::Delay { micros: BT_RING_TX_INTR_DELAY_US })
            + seq![ActionView::Read32 { addr: HOST_CTRL_REG_ADDR }],
    }
}

/// The write of the write pointer.
pub open spec fn pointer_write(opts: Options, addr: u32, tx: TxState) -> PointerWrite {
    PointerWrite {
        addr,
        offset: BTSDIO_OFFSET_HOST2BT_IN,
        value: tx.h2b_write_pointer,
        stage: if opts.pointer_write_readback {
            PointerStage::Verifying { left: (READBACK_ATTEMPTS - 1) as u32 }
        } else {
            PointerStage::Done
        },
    }
}

/// Publishes the write pointer.
pub open spec fn publish(opts: Options, addr: u32, tx: TxState, ctrl: HostCtrl) -> TxStep {
    let write = pointer_write(opts, addr, tx);
    let delay = optional(
        opts.tx_publish_delay,
        ActionView::Delay { micros: BT_RING_TX_PUBLISH_DELAY_US },
    );
    if opts.pointer_write_readback {
        TxStep {
            tx,
            ctrl,
            stage: TxStage::Publishing(write),
            acts: delay + seq![write.write(), write.read()],
        }
    } else {
        signal(opts, tx, ctrl).after(delay + seq![write.write()])
    }
}

/// Asks for the packet.
pub open spec fn fetch(tx: TxState, ctrl: HostCtrl) -> TxStep {
    TxStep { tx, ctrl, stage: TxStage::Fetching, acts: seq![ActionView::TakeTx] }
}

/// Goes on as far as the waking of the Bluetooth core allows.
pub open spec fn woken(
    tx: TxState,
    ctrl: HostCtrl,
    update: HostCtrlUpdate,
) -> TxStep {
    match update.stage {
        UpdateStage::Done => TxStep {
            tx,
            ctrl,
            stage: TxStage::Awaiting(
                Poll {
                    mask: BTSDIO_REG_BT_AWAKE_BITMASK,
                    stage: PollStage::Reading { left: (POLL_ATTEMPTS - 1) as u32 },
                },
            ),
            acts: seq![status_read()],
        },
        UpdateStage::Failed(fault) => TxStep { tx, ctrl, stage: TxStage::Failed(fault), acts: seq![] },
        _ => TxStep { tx, ctrl, stage: TxStage::Waking(update), acts: seq![] },
    }
}

/// The change with which sending a packet starts.
pub open spec fn wake_up() -> HostCtrlChange {
    HostCtrlChange::SetAwake(true)
}

/// Starts to send a packet.
pub open spec fn tx_begin(opts: Options, tx: TxState, ctrl: HostCtrl) -> TxStep {
    let step = update_begin(opts, ctrl, wake_up());
    woken(tx, step.ctrl, HostCtrlUpdate { change: wake_up(), stage: step.stage }).after(step.acts)
}

/// The inspection of a packet on its way out, where the options ask for it.
pub open spec fn inspection(opts: Options, packet: BtPacketBuf) -> Option<ReproDiag> {
    if opts.tx_repro_diag {
        hci_packet_diag(packet@)
    } else {
        None
    }
}

/// What is kept after the inspection of a packet.
pub open spec fn inspected(opts: Options, tx: TxState, packet: BtPacketBuf) -> TxState {
    match inspection(opts, packet) {
        Some(diag) => TxState { diag: tx.diag.counted(diag.mismatches != 0), ..tx },
        None => tx,
    }
}

/// What the inspection of a packet has to report.
pub open spec fn inspection_report(
    opts: Options,
    tx: TxState,
    packet: BtPacketBuf,
) -> Option<Report> {
    match inspection(opts, packet) {
        Some(diag) => placed(DiagPoint::Runner, inspected(opts, tx, packet).diag.report(diag)),
        None => None,
    }
}

/// The writes that put the frame of a packet into the ring.
pub open spec fn frame_writes(addr: u32, tx: TxState, packet: BtPacketBuf) -> Seq<ActionView> {
    let base = (addr + BTSDIO_OFFSET_HOST_WRITE_BUF) as u32;
    let p = tx.h2b_write_pointer;
    ring_writes(base, p, packet_header(packet)) + ring_writes(
        base,
        ring_moved(p, 4),
        packet_payload(packet),
    )
}

/// Puts a packet into the ring, and reads it back or publishes it.
pub open spec fn transmit(
    opts: Options,
    addr: u32,
    tx: TxState,
    ctrl: HostCtrl,
    packet: BtPacketBuf,
) -> TxStep {
    let start = tx.h2b_write_pointer;
    let moved = TxState {
        h2b_write_pointer: ring_moved(ring_moved(start, 4), padded_len(body_len(packet))),
        ..tx
    };
    let writes = frame_writes(addr, tx, packet);
    match inspection(opts, packet) {
        Some(diag) if opts.tx_readback_probe => TxStep {
            tx: moved,
            ctrl,
            stage: TxStage::ReadingBack { start, packet, diag },
            acts: writes + ring_reads(
                (addr + BTSDIO_OFFSET_HOST_WRITE_BUF) as u32,
                start,
                frame_len(packet),
            ),
        },
        _ => publish(opts, addr, moved, ctrl).after(writes),
    }
}

/// Puts a packet into the ring, if there is room for it: the Bluetooth core has
/// read up to `read`.
pub open spec fn offer(
    opts: Options,
    addr: u32,
    tx: TxState,
    ctrl: HostCtrl,
    packet: BtPacketBuf,
    read: u32,
) -> TxStep {
    let available = ring_free(read, tx.h2b_write_pointer);
    let needed = frame_len(packet);
    if available < needed {
        let report = Report::TxQueueFull { len: needed as u32, available: available as u32 };
        TxStep {
            tx,
            ctrl,
            stage: TxStage::Done,
            acts: seq![ActionView::Log { report }, ActionView::Yield],
        }
    } else if 1 + padded_len(body_len(packet)) > BT_HCI_MTU {
        TxStep { tx, ctrl, stage: TxStage::Failed(Fault::TxTooLong), acts: seq![] }
    } else {
        transmit(opts, addr, tx, ctrl, packet)
    }
}

/// Inspects a packet, and asks for the read pointer.
pub open spec fn taken(
    opts: Options,
    addr: u32,
    tx: TxState,
    ctrl: HostCtrl,
    packet: BtPacketBuf,
) -> TxStep {
    let kept = inspected(opts, tx, packet);
    let logs = logged(inspection_report(opts, tx, packet));
    if packet.len == 0 {
        TxStep { tx: kept, ctrl, stage: TxStage::Failed(Fault::TxEmpty), acts: logs }
    } else {
        TxStep {
            tx: kept,
            ctrl,
            stage: TxStage::Offering { packet, found: inspection(opts, packet) },
            acts: logs + pointer_reads(opts, addr, BTSDIO_OFFSET_HOST2BT_OUT),
        }
    }
}

/// Puts a packet into the ring if there is room for it, given what the read
/// pointer read as.
pub open spec fn send(
    opts: Options,
    addr: u32,
    tx: TxState,
    ctrl: HostCtrl,
    packet: BtPacketBuf,
    words: Seq<u32>,
) -> TxStep {
    match pointer_value(opts, words) {
        Err(fault) => TxStep { tx, ctrl, stage: TxStage::Failed(fault), acts: seq![] },
        Ok(read) => offer(opts, addr, tx, ctrl, packet, read).after(
            pointer_reports(BTSDIO_OFFSET_HOST2BT_OUT, words),
        ),
    }
}

/// What reading a frame back has to report.
pub open spec fn readback_report(counters: DiagCounters, seq: u16, diff: Diff) -> Option<Report> {
    if diff.mismatches != 0 {
        Some(
            Report::TxReadbackBad {
                seq,
                offset: diff.first_offset,
                payload_offset: if diff.first_offset < 4 {
                    0
                } else {
                    (diff.first_offset - 4) as u16
                },
                in_header: diff.first_offset < 4,
                got: diff.first_actual,
                expected: diff.first_expected,
                mismatched: diff.mismatches,
                bad: counters.bad,
                checked: counters.checked,
            },
        )
    } else if counters.checked % SUMMARY_EVERY == 0 {
        Some(Report::TxReadbackSummary { checked: counters.checked, bad: counters.bad })
    } else {
        None
    }
}

/// Compares a frame with what it read back as, and publishes it.
pub open spec fn compared(
    opts: Options,
    addr: u32,
    tx: TxState,
    ctrl: HostCtrl,
    packet: BtPacketBuf,
    diag: ReproDiag,
    actual: Seq<u8>,
) -> TxStep {
    let diff = diff_of(packet_header(packet) + packet_payload(packet), actual);
    let readback = tx.readback.counted(diff.mismatches != 0);
    publish(opts, addr, TxState { readback, ..tx }, ctrl).after(
        logged(readback_report(readback, diag.seq, diff)),
    )
}

/// Goes on sending a packet.
pub open spec fn tx_next(
    opts: Options,
    addr: u32,
    tx: TxState,
    ctrl: HostCtrl,
    stage: TxStage,
    replies: Seq<Reply>,
) -> TxStep {
    match stage {
        TxStage::Waking(update) => {
            let step = update_next(opts, ctrl, update, words_of(replies));
            let update = HostCtrlUpdate { change: update.change, stage: step.stage };
            woken(tx, step.ctrl, update).after(step.acts)
        },
        TxStage::Awaiting(poll) => {
            let value = word_of(replies[0]);
            let acts = poll.next_acts(value);
            match poll.next_stage(value) {
                PollStage::Done => fetch(tx, ctrl).after(acts),
                PollStage::Failed(fault) => TxStep { tx, ctrl, stage: TxStage::Failed(fault), acts },
                stage => TxStep { tx, ctrl, stage: TxStage::Awaiting(Poll { stage, ..poll }), acts },
            }
        },
        TxStage::Fetching => taken(opts, addr, tx, ctrl, replies[0]->Packet_0),
        TxStage::Offering { packet, found } => send(
            opts,
            addr,
            tx,
            ctrl,
            packet,
            pointer_words(opts, replies, 0),
        ),
        TxStage::ReadingBack { start, packet, diag } => compared(
            opts,
            addr,
            tx,
            ctrl,
            packet,
            diag,
            joined(replies),
        ),
        TxStage::Publishing(write) => {
            let got = word_of(replies[0]);
            let acts = write.next_acts(opts, got);
            match write.next_stage(opts, got) {
                PointerStage::Done => signal(opts, tx, ctrl).after(acts),
                PointerStage::Failed(fault) => TxStep { tx, ctrl, stage: TxStage::Failed(fault), acts },
                stage => TxStep {
                    tx,
                    ctrl,
                    stage: TxStage::Publishing(PointerWrite { stage, ..write }),
                    acts,
                },
            }
        },
        TxStage::Signalling => TxStep {
            tx,
            ctrl,
            stage: TxStage::Done,
            acts: seq![
                ActionView::Write32 {
                    addr: HOST_CTRL_REG_ADDR,
                    value: HostCtrlChange::ToggleIntr.applied(word_of(replies[0])),
                },
                ActionView::ReleaseTx,
            ],
        },
        _ => TxStep { tx, ctrl, stage, acts: seq![] },
    }
}

/// The replies that a stage waits for.
pub open spec fn tx_asks(opts: Options, stage: TxStage) -> Seq<Ask> {
    match stage {
        TxStage::Waking(update) => update.awaited(opts),
        TxStage::Awaiting(poll) => poll.awaited(),
        TxStage::Fetching => seq![Ask::Packet],
        TxStage::Offering { packet, found } => pointer_asks(opts),
        TxStage::ReadingBack { start, packet, diag } => ring_asks(start, frame_len(packet)),
        TxStage::Publishing(write) => write.awaited(),
        TxStage::Signalling => seq![Ask::Word],
        _ => seq![],
    }
}

/// Whether the shared buffers and the write pointer are where they can be.
pub open spec fn tx_wf(addr: u32, tx: TxState) -> bool {
    addr <= MAX_RAM_BASE && ring_pointer(tx.h2b_write_pointer)
}

/// What holds of a stage.
pub open spec fn stage_wf(opts: Options, stage: TxStage) -> bool {
    match stage {
        TxStage::Waking(update) => update.wf(opts) && update.running(),
        TxStage::Awaiting(poll) => poll.stage is Reading,
        TxStage::Offering { packet, found } => {
            1 <= packet.len && packet.wf() && found == inspection(opts, packet)
        },
        TxStage::ReadingBack { start, packet, diag } => {
            &&& ring_pointer(start)
            &&& 1 <= packet.len
            &&& 1 + padded_len(body_len(packet)) <= BT_HCI_MTU
        },
        TxStage::Publishing(write) => write.wf() && write.stage is Verifying,
        _ => true,
    }
}

impl HciWrite {
    /// The replies that are awaited.
    pub open spec fn awaited(self, opts: Options) -> Seq<Ask> {
        tx_asks(opts, self.stage)
    }

    /// Whether there is something left to do.
    pub open spec fn running(self) -> bool {
        !(self.stage is Done || self.stage is Failed)
    }

    /// What holds of a stage.
    pub open spec fn wf(self, opts: Options) -> bool {
        stage_wf(opts, self.stage)
    }

    fn signal(opts: &Options, tx: &TxState, ctrl: &HostCtrl, acts: &mut Actions) -> (stage: TxStage)
        ensures
            ({
                let step = signal(*opts, *tx, *ctrl);
                &&& stage == step.stage
                &&& final(acts)@ == old(acts)@ + step.acts
            }),
            asks(final(acts)@) == asks(old(acts)@) + tx_asks(*opts, stage),
    {
        if opts.tx_intr_delay {
            acts.push(Action::Delay { micros: BT_RING_TX_INTR_DELAY_US });
        }
        acts.push(Action::Read32 { addr: HOST_CTRL_REG_ADDR });
        assert(acts@ =~= old(acts)@ + signal(*opts, *tx, *ctrl).acts);
        assert(asks(acts@) =~= asks(old(acts)@) + seq![Ask::Word]);
        TxStage::Signalling
    }

    fn publish(
        opts: &Options,
        addr: u32,
        tx: &TxState,
        ctrl: &HostCtrl,
        acts: &mut Actions,
    ) -> (stage:
        TxStage)
        requires
            tx_wf(addr, *tx),
        ensures
            ({
                let step = publish(*opts, addr, *tx, *ctrl);
                &&& stage == step.stage
                &&& final(acts)@ == old(acts)@ + step.acts
            }),
            stage_wf(*opts, stage),
            asks(final(acts)@) == asks(old(acts)@) + tx_asks(*opts, stage),
    {
        let ghost step = publish(*opts, addr, *tx, *ctrl);
        if opts.tx_publish_delay {
            acts.push(Action::Delay { micros: BT_RING_TX_PUBLISH_DELAY_US });
        }
        let write: PointerWrite = PointerWrite::start(
            opts,
            addr,
            BTSDIO_OFFSET_HOST2BT_IN,
            tx.h2b_write_pointer,
            acts,
        );
        assert(asks(acts@) =~= asks(old(acts)@) + write.awaited());
        if opts.pointer_write_readback {
            assert(acts@ =~= old(acts)@ + step.acts);
            TxStage::Publishing(write)
        } else {
            assert(asks(acts@) =~= asks(old(acts)@));
            let stage: TxStage = Self::signal(opts, tx, ctrl, acts);
            assert(acts@ =~= old(acts)@ + step.acts);
            stage
        }
    }

    fn woken(
        opts: &Options,
        tx: &TxState,
        ctrl: &HostCtrl,
        update: HostCtrlUpdate,
        acts: &mut Actions,
    ) -> (stage: TxStage)
        requires
            update.wf(*opts),
        ensures
            ({
                let step = woken(*tx, *ctrl, update);
                &&& stage == step.stage
                &&& final(acts)@ == old(acts)@ + step.acts
            }),
            stage_wf(*opts, stage),
            asks(final(acts)@) == if update.running() {
                asks(old(acts)@)
            } else {
                asks(old(acts)@) + tx_asks(*opts, stage)
            },
    {
        assert(acts@ =~= acts@ + Seq::<ActionView>::empty());
        assert(asks(acts@) =~= asks(acts@) + Seq::<Ask>::empty());
        match update.stage {
            UpdateStage::Done => {
                let poll: Poll = Poll::start(BTSDIO_REG_BT_AWAKE_BITMASK, acts);
                assert(acts@ =~= old(acts)@ + seq![status_read()]);
                TxStage::Awaiting(poll)
            },
            UpdateStage::Failed(fault) => TxStage::Failed(fault),
            _ => TxStage::Waking(update),
        }
    }

    /// Starts to send a packet: the Bluetooth core is woken first.
    pub fn start(
        opts: &Options,
        tx: &TxState,
        ctrl: &mut HostCtrl,
        acts: &mut Actions,
    ) -> (write: Self)
        ensures
            ({
                let step = tx_begin(*opts, *tx, *old(ctrl));
                &&& write.stage == step.stage
                &&& *final(ctrl) == step.ctrl
                &&& *tx == step.tx
                &&& final(acts)@ == old(acts)@ + step.acts
            }),
            write.wf(*opts),
            asks(final(acts)@) == asks(old(acts)@) + write.awaited(*opts),
    {
        let ghost step = tx_begin(*opts, *tx, *ctrl);
        let update: HostCtrlUpdate = HostCtrlUpdate::start(
            HostCtrlChange::SetAwake(true),
            opts,
            ctrl,
            acts,
        );
        assert(!update.running() ==> asks(acts@) =~= asks(old(acts)@));
        let stage: TxStage = Self::woken(opts, tx, ctrl, update, acts);
        assert(acts@ =~= old(acts)@ + step.acts);
        HciWrite { stage }
    }

    fn fetch(opts: &Options, tx: &TxState, ctrl: &HostCtrl, acts: &mut Actions) -> (stage: TxStage)
        ensures
            ({
                let step = fetch(*tx, *ctrl);
                &&& stage == step.stage
                &&& final(acts)@ == old(acts)@ + step.acts
            }),
            asks(final(acts)@) == asks(old(acts)@) + tx_asks(*opts, stage),
    {
        acts.push(Action::TakeTx);
        assert(acts@ =~= old(acts)@ + fetch(*tx, *ctrl).acts);
        assert(asks(acts@) =~= asks(old(acts)@) + tx_asks(*opts, TxStage::Fetching));
        TxStage::Fetching
    }

    /// Inspects a packet on its way out, where the options ask for it.
    fn inspect(
        opts: &Options,
        tx: &mut TxState,
        packet: &BtPacketBuf,
        acts: &mut Actions,
    ) -> (diag: Option<ReproDiag>)
        requires
            packet.wf(),
        ensures
            diag == inspection(*opts, *packet),
            *final(tx) == inspected(*opts, *old(tx), *packet),
            final(acts)@ == old(acts)@ + logged(inspection_report(*opts, *old(tx), *packet)),
            asks(final(acts)@) == asks(old(acts)@),
    {
        assert(acts@ =~= acts@ + Seq::<ActionView>::empty());
        if !opts.tx_repro_diag {
            return None;
        }
        let len: usize = packet.len;
        let bytes: &[u8] = &packet.buf.as_slice()[0..len];
        assert(bytes@ =~= packet@);
        let found: Option<ReproDiag> = inspect_repro_hci_packet(bytes);
        if let Some(diag) = found {
            let mut counters: DiagCounters = tx.diag;
            let report: Option<Report> = tx_diag_record_runner(&mut counters, diag);
            tx.diag = counters;
            if let Some(report) = report {
                acts.push(Action::Log { report });
            }
        }
        assert(acts@ =~= old(acts)@ + logged(inspection_report(*opts, *old(tx), *packet)));
        found
    }

    /// Inspects a packet, and asks for the read pointer.
    fn taken(
        opts: &Options,
        addr: u32,
        tx: &mut TxState,
        ctrl: &HostCtrl,
        replies: &Vec<Reply>,
        acts: &mut Actions,
    ) -> (stage: TxStage)
        requires
            tx_wf(addr, *old(tx)),
            answered(tx_asks(*opts, TxStage::Fetching), replies@),
        ensures
            ({
                let step = taken(*opts, addr, *old(tx), *ctrl, replies@[0]->Packet_0);
                &&& stage == step.stage
                &&& *final(tx) == step.tx
                &&& final(acts)@ == old(acts)@ + step.acts
            }),
            tx_wf(addr, *final(tx)),
            stage_wf(*opts, stage),
            asks(final(acts)@) == asks(old(acts)@) + tx_asks(*opts, stage),
    {
        assert(replies@[0] is Packet);
        assert(asks(acts@) =~= asks(acts@) + Seq::<Ask>::empty());
        let packet: BtPacketBuf = packet_in(replies, 0);
        let ghost step = taken(*opts, addr, *tx, *ctrl, packet);
        let diag: Option<ReproDiag> = Self::inspect(opts, tx, &packet, acts);
        if packet.len == 0 {
            return TxStage::Failed(Fault::TxEmpty);
        }
        read_ring_pointer(opts, addr, BTSDIO_OFFSET_HOST2BT_OUT, acts);
        assert(acts@ =~= old(acts)@ + step.acts);
        TxStage::Offering { packet, found: diag }
    }

    /// Puts a packet into the ring if there is room for it, given what the read
    /// pointer read as.
    #[verifier::spinoff_prover]
    #[verifier::rlimit(40)]
    fn send(
        opts: &Options,
        addr: u32,
        tx: &mut TxState,
        ctrl: &HostCtrl,
        packet: &BtPacketBuf,
        diag: Option<ReproDiag>,
        replies: &Vec<Reply>,
        acts: &mut Actions,
    ) -> (stage: TxStage)
        requires
            tx_wf(addr, *old(tx)),
            stage_wf(*opts, TxStage::Offering { packet: *packet, found: diag }),
            answered(pointer_asks(*opts), replies@),
        ensures
            ({
                let words = pointer_words(*opts, replies@, 0);
                let step = send(*opts, addr, *old(tx), *ctrl, *packet, words);
                &&& stage == step.stage
                &&& *final(tx) == step.tx
                &&& final(acts)@ == old(acts)@ + step.acts
            }),
            tx_wf(addr, *final(tx)),
            stage_wf(*opts, stage),
            asks(final(acts)@) == asks(old(acts)@) + tx_asks(*opts, stage),
    {
        let ghost words = pointer_words(*opts, replies@, 0);
        assert(forall|i: int| 0 <= i < pointer_asks(*opts).len() ==> #[trigger] replies@[i] is Word);
        assert(asks(acts@) =~= asks(acts@) + Seq::<Ask>::empty());
        assert(acts@ =~= acts@ + Seq::<ActionView>::empty());
        match ring_pointer_read(opts, BTSDIO_OFFSET_HOST2BT_OUT, replies, 0, acts) {
            Ok(read) => {
                let ghost logs = pointer_reports(BTSDIO_OFFSET_HOST2BT_OUT, words);
                let ghost rest = offer(*opts, addr, *tx, *ctrl, *packet, read).acts;
                let stage: TxStage = Self::offer(opts, addr, tx, ctrl, packet, diag, read, acts);
                assert(acts@ =~= old(acts)@ + (logs + rest));
                stage
            },
            Err(fault) => TxStage::Failed(fault),
        }
    }

    /// Puts a packet into the ring, if there is room for it.
    fn offer(
        opts: &Options,
        addr: u32,
        tx: &mut TxState,
        ctrl: &HostCtrl,
        packet: &BtPacketBuf,
        diag: Option<ReproDiag>,
        read: u32,
        acts: &mut Actions,
    ) -> (stage: TxStage)
        requires
            tx_wf(addr, *old(tx)),
            1 <= packet.len <= BT_HCI_MTU,
            diag == inspection(*opts, *packet),
        ensures
            ({
                let step = offer(*opts, addr, *old(tx), *ctrl, *packet, read);
                &&& stage == step.stage
                &&& *final(tx) == step.tx
                &&& final(acts)@ == old(acts)@ + step.acts
            }),
            tx_wf(addr, *final(tx)),
            stage_wf(*opts, stage),
            asks(final(acts)@) == asks(old(acts)@) + tx_asks(*opts, stage),
    {
        assert(acts@ =~= acts@ + Seq::<ActionView>::empty());
        assert(asks(acts@) =~= asks(acts@) + Seq::<Ask>::empty());
        let len: u32 = packet.len as u32 - 1;
        let rounded_len: u32 = round_up(len, 4);
        let total_len: u32 = 4 + rounded_len;
        let available: u32 = free(read, tx.h2b_write_pointer);
        if available < total_len {
            acts.push(Action::Log { report: Report::TxQueueFull { len: total_len, available } });
            acts.push(Action::Yield);
            assert(acts@ =~= old(acts)@ + offer(*opts, addr, *tx, *ctrl, *packet, read).acts);
            return TxStage::Done;
        }
        if 1 + rounded_len as usize > BT_HCI_MTU {
            return TxStage::Failed(Fault::TxTooLong);
        }
        Self::transmit(opts, addr, tx, ctrl, packet, diag, acts)
    }

    /// Puts a packet into the ring, and reads it back or publishes it.
    fn transmit(
        opts: &Options,
        addr: u32,
        tx: &mut TxState,
        ctrl: &HostCtrl,
        packet: &BtPacketBuf,
        diag: Option<ReproDiag>,
        acts: &mut Actions,
    ) -> (stage: TxStage)
        requires
            tx_wf(addr, *old(tx)),
            1 <= packet.len,
            1 + padded_len(body_len(*packet)) <= BT_HCI_MTU,
            diag == inspection(*opts, *packet),
        ensures
            ({
                let step = transmit(*opts, addr, *old(tx), *ctrl, *packet);
                &&& stage == step.stage
                &&& *final(tx) == step.tx
                &&& final(acts)@ == old(acts)@ + step.acts
            }),
            tx_wf(addr, *final(tx)),
            stage_wf(*opts, stage),
            asks(final(acts)@) == asks(old(acts)@) + tx_asks(*opts, stage),
    {
        let ghost step = transmit(*opts, addr, *tx, *ctrl, *packet);
        let len: u32 = packet.len as u32 - 1;
        let rounded_len: u32 = round_up(len, 4);
        let start: u32 = tx.h2b_write_pointer;
        Self::store_frame(addr, tx, packet, len, rounded_len, acts);
        match diag {
            Some(diag) if opts.tx_readback_probe => {
                ring_read(
                    acts,
                    addr + BTSDIO_OFFSET_HOST_WRITE_BUF,
                    start,
                    4 + rounded_len as usize,
                );
                assert(acts@ =~= old(acts)@ + step.acts);
                TxStage::ReadingBack { start, packet: *packet, diag }
            },
            _ => {
                let stage: TxStage = Self::publish(opts, addr, tx, ctrl, acts);
                assert(acts@ =~= old(acts)@ + step.acts);
                stage
            },
        }
    }

    /// Puts the frame of a packet into the ring, and moves the write pointer
    /// behind it.
    fn store_frame(
        addr: u32,
        tx: &mut TxState,
        packet: &BtPacketBuf,
        len: u32,
        rounded_len: u32,
        acts: &mut Actions,
    )
        requires
            tx_wf(addr, *old(tx)),
            1 <= packet.len,
            len == body_len(*packet),
            rounded_len == padded_len(len as int),
            1 + rounded_len <= BT_HCI_MTU,
        ensures
            *final(tx) == (TxState {
                h2b_write_pointer: ring_moved(
                    ring_moved(old(tx).h2b_write_pointer, 4),
                    rounded_len as int,
                ),
                ..*old(tx)
            }),
            tx_wf(addr, *final(tx)),
            final(acts)@ == old(acts)@ + frame_writes(addr, *old(tx), *packet),
            asks(final(acts)@) == asks(old(acts)@),
    {
        let start: u32 = tx.h2b_write_pointer;
        let header: [u8; 4] = [
            (len % 256) as u8,
            (len / 0x100 % 256) as u8,
            (len / 0x1_0000 % 256) as u8,
            packet.buf[0],
        ];
        assert(header@ =~= packet_header(*packet));
        let base: u32 = addr + BTSDIO_OFFSET_HOST_WRITE_BUF;
        ring_write(acts, base, start, header.as_slice());
        let second: u32 = ring_move(start, 4);
        let payload: &[u8] = &packet.buf.as_slice()[1..1 + rounded_len as usize];
        assert(payload@ =~= packet_payload(*packet));
        ring_write(acts, base, second, payload);
        tx.h2b_write_pointer = ring_move(second, rounded_len);
        assert(acts@ =~= old(acts)@ + frame_writes(addr, *old(tx), *packet));
    }

    /// Compares a frame with what it read back as, and publishes it.
    fn compared(
        opts: &Options,
        addr: u32,
        tx: &mut TxState,
        ctrl: &HostCtrl,
        packet: &BtPacketBuf,
        diag: ReproDiag,
        actual: &[u8],
        acts: &mut Actions,
    ) -> (stage: TxStage)
        requires
            tx_wf(addr, *old(tx)),
            1 <= packet.len,
            1 + padded_len(body_len(*packet)) <= BT_HCI_MTU,
            actual@.len() == frame_len(*packet),
        ensures
            ({
                let step = compared(*opts, addr, *old(tx), *ctrl, *packet, diag, actual@);
                &&& stage == step.stage
                &&& *final(tx) == step.tx
                &&& final(acts)@ == old(acts)@ + step.acts
            }),
            tx_wf(addr, *final(tx)),
            stage_wf(*opts, stage),
            asks(final(acts)@) == asks(old(acts)@) + tx_asks(*opts, stage),
    {
        let ghost step = compared(*opts, addr, *tx, *ctrl, *packet, diag, actual@);
        let len: u32 = packet.len as u32 - 1;
        let rounded_len: u32 = round_up(len, 4);
        let mut expected: Vec<u8> = Vec::new();
        expected.push((len % 256) as u8);
        expected.push((len / 0x100 % 256) as u8);
        expected.push((len / 0x1_0000 % 256) as u8);
        expected.push(packet.buf[0]);
        assert(expected@ =~= packet_header(*packet));
        let n: usize = rounded_len as usize;
        let mut i: usize = 0;
        while i < n
            invariant
                i <= n,
                1 + n <= BT_HCI_MTU,
                n == padded_len(body_len(*packet)),
                expected@ == packet_header(*packet) + packet_payload(*packet).take(i as int),
            decreases n - i,
        {
            expected.push(packet.buf[1 + i]);
            i = i + 1;
            assert(expected@ =~= packet_header(*packet) + packet_payload(*packet).take(i as int));
        }
        assert(expected@ =~= packet_header(*packet) + packet_payload(*packet));
        let diff: Diff = compare(expected.as_slice(), actual);
        let mut counters: DiagCounters = tx.readback;
        counters.count(diff.mismatches != 0);
        tx.readback = counters;
        if diff.mismatches != 0 {
            let in_header: bool = diff.first_offset < 4;
            let payload_offset: u16 = if in_header {
                0
            } else {
                diff.first_offset - 4
            };
            acts.push(
                Action::Log {
                    report: Report::TxReadbackBad {
                        seq: diag.seq,
                        offset: diff.first_offset,
                        payload_offset,
                        in_header,
                        got: diff.first_actual,
                        expected: diff.first_expected,
                        mismatched: diff.mismatches,
                        bad: counters.bad,
                        checked: counters.checked,
                    },
                },
            );
        } else if counters.checked % SUMMARY_EVERY == 0 {
            acts.push(
                Action::Log {
                    report: Report::TxReadbackSummary { checked: counters.checked, bad: counters.bad },
                },
            );
        }
        let stage: TxStage = Self::publish(opts, addr, tx, ctrl, acts);
        assert(acts@ =~= old(acts)@ + step.acts);
        stage
    }

    /// Goes on sending a packet.
    #[verifier::spinoff_prover]
    #[verifier::rlimit(40)]
    pub fn resume(
        &mut self,
        opts: &Options,
        addr: u32,
        tx: &mut TxState,
        ctrl: &mut HostCtrl,
        replies: &Vec<Reply>,
        acts: &mut Actions,
    )
        requires
            tx_wf(addr, *old(tx)),
            old(self).wf(*opts),
            old(self).running(),
            answered(old(self).awaited(*opts), replies@),
        ensures
            ({
                let step = tx_next(*opts, addr, *old(tx), *old(ctrl), old(self).stage, replies@);
                &&& final(self).stage == step.stage
                &&& *final(tx) == step.tx
                &&& *final(ctrl) == step.ctrl
                &&& final(acts)@ == old(acts)@ + step.acts
            }),
            tx_wf(addr, *final(tx)),
            final(self).wf(*opts),
            asks(final(acts)@) == asks(old(acts)@) + final(self).awaited(*opts),
    {
        let ghost step = tx_next(*opts, addr, *tx, *ctrl, self.stage, replies@);
        assert(asks(acts@) =~= asks(acts@) + Seq::<Ask>::empty());
        match self.stage {
            TxStage::Waking(update) => {
                let mut update: HostCtrlUpdate = update;
                update.resume(opts, ctrl, replies, acts);
                assert(!update.running() ==> asks(acts@) =~= asks(old(acts)@));
                self.stage = Self::woken(opts, tx, ctrl, update, acts);
                assert(acts@ =~= old(acts)@ + step.acts);
            },
            TxStage::Awaiting(poll) => {
                let mut poll: Poll = poll;
                poll.resume(replies, acts);
                match poll.stage {
                    PollStage::Done => {
                        assert(asks(acts@) =~= asks(old(acts)@));
                        self.stage = Self::fetch(opts, tx, ctrl, acts);
                        assert(acts@ =~= old(acts)@ + step.acts);
                    },
                    PollStage::Failed(fault) => {
                        self.stage = TxStage::Failed(fault);
                    },
                    _ => {
                        self.stage = TxStage::Awaiting(poll);
                    },
                }
            },
            TxStage::Fetching => {
                self.stage = Self::taken(opts, addr, tx, ctrl, replies, acts);
            },
            TxStage::Offering { packet, found } => {
                self.stage = Self::send(opts, addr, tx, ctrl, &packet, found, replies, acts);
            },
            TxStage::ReadingBack { start, packet, diag } => {
                assert(forall|i: int| 0 <= i < replies@.len() ==> #[trigger] replies@[i] is Block);
                let actual: Vec<u8> = join_blocks(replies, replies.len());
                assert(replies@.take(replies@.len() as int) =~= replies@);
                proof {
                    lemma_joined_len(replies@, start, frame_len(packet));
                }
                self.stage = Self::compared(opts, addr, tx, ctrl, &packet, diag, actual.as_slice(), acts);
            },
            TxStage::Publishing(write) => {
                let mut write: PointerWrite = write;
                write.resume(opts, replies, acts);
                match write.stage {
                    PointerStage::Done => {
                        assert(asks(acts@) =~= asks(old(acts)@));
                        self.stage = Self::signal(opts, tx, ctrl, acts);
                        assert(acts@ =~= old(acts)@ + step.acts);
                    },
                    PointerStage::Failed(fault) => {
                        self.stage = TxStage::Failed(fault);
                    },
                    _ => {
                        self.stage = TxStage::Publishing(write);
                    },
                }
            },
            TxStage::Signalling => {
                assert(replies@[0] is Word);
                let old_val: u32 = word_in(replies, 0);
                acts.push(
                    Action::Write32 {
                        addr: HOST_CTRL_REG_ADDR,
                        value: HostCtrlChange::ToggleIntr.apply(old_val),
                    },
                );
                acts.push(Action::ReleaseTx);
                self.stage = TxStage::Done;
                assert(acts@ =~= old(acts)@ + step.acts);
            },
            _ => {},
        }
    }
}

/// The frame of a packet.
pub open spec fn packet_frame(packet: BtPacketBuf) -> Seq<u8> {
    packet_header(packet) + packet_payload(packet)
}

/// Whether a packet can be framed at all: it has a type byte, and its last word
/// does not reach past its buffer.
pub open spec fn framable(packet: BtPacketBuf) -> bool {
    1 <= packet.len && 1 + padded_len(body_len(packet)) <= BT_HCI_MTU
}

/// The writes of a frame put it into the outgoing ring at the write pointer, and
/// change nothing else.
pub proof fn law_frame_is_stored(mem: Memory, addr: u32, tx: TxState, packet: BtPacketBuf)
    requires
        tx_wf(addr, tx),
        framable(packet),
    ensures
        performed_all(mem, frame_writes(addr, tx, packet)) == ring_stored(
            mem,
            addr + BTSDIO_OFFSET_HOST_WRITE_BUF,
            tx.h2b_write_pointer as int,
            packet_frame(packet),
        ),
{
    let base = (addr + BTSDIO_OFFSET_HOST_WRITE_BUF) as u32;
    let p = tx.h2b_write_pointer;
    let header = packet_header(packet);
    let payload = packet_payload(packet);
    law_performed_in_turn(
        mem,
        ring_writes(base, p, header),
        ring_writes(base, ring_moved(p, 4), payload),
    );
    law_ring_writes_store(mem, base, p, header);
    let inner = ring_stored(mem, base as int, p as int, header);
    law_ring_writes_store(inner, base, ring_moved(p, 4), payload);
    law_ring_store_in_pieces(mem, base as int, p as int, header, payload);
}

/// Moving a position twice moves it by the sum.
proof fn lemma_moved_twice(p: u32, a: int, b: int)
    requires
        0 <= a,
        0 <= b,
    ensures
        ring_moved(ring_moved(p, a), b) == ring_moved(p, a + b),
{
    let size = BTSDIO_FWBUF_SIZE as int;
    lemma_mod_bound(p + a, size);
    lemma_add_mod_noop_right(b, p + a, size);
}

/// Sending a packet puts its frame into the outgoing ring and moves the write
/// pointer to its end; unless it is read back first, the pointer in shared
/// memory is written in the same go. Nothing else in memory changes.
#[verifier::spinoff_prover]
#[verifier::rlimit(40)]
pub proof fn law_transmit(
    mem: Memory,
    opts: Options,
    addr: u32,
    tx: TxState,
    ctrl: HostCtrl,
    packet: BtPacketBuf,
)
    requires
        tx_wf(addr, tx),
        framable(packet),
    ensures
        ({
            let step = transmit(opts, addr, tx, ctrl, packet);
            let framed = ring_stored(
                mem,
                addr + BTSDIO_OFFSET_HOST_WRITE_BUF,
                tx.h2b_write_pointer as int,
                packet_frame(packet),
            );
            &&& step.tx.h2b_write_pointer == ring_moved(tx.h2b_write_pointer, frame_len(packet))
            &&& performed_all(mem, step.acts) == if step.stage is ReadingBack {
                framed
            } else {
                stored(
                    framed,
                    addr + BTSDIO_OFFSET_HOST2BT_IN,
                    u32_bytes(step.tx.h2b_write_pointer),
                )
            }
        }),
{
    let step = transmit(opts, addr, tx, ctrl, packet);
    let writes = frame_writes(addr, tx, packet);
    lemma_moved_twice(tx.h2b_write_pointer, 4, padded_len(body_len(packet)));
    law_frame_is_stored(mem, addr, tx, packet);
    let framed = performed_all(mem, writes);
    let rest = step.acts.skip(writes.len() as int);
    assert(step.acts =~= writes + rest);
    law_performed_in_turn(mem, writes, rest);
    if step.stage is ReadingBack {
        law_memory_kept(framed, rest);
    } else {
        let write = pointer_write(opts, addr, step.tx);
        let before = optional(
            opts.tx_publish_delay,
            ActionView::Delay { micros: BT_RING_TX_PUBLISH_DELAY_US },
        );
        let after = rest.skip((before.len() + 1) as int);
        assert(rest =~= before + (seq![write.write()] + after));
        law_performed_in_turn(framed, before, seq![write.write()] + after);
        law_memory_kept(framed, before);
        law_performed_in_turn(framed, seq![write.write()], after);
        assert(seq![write.write()].drop_last() =~= seq![]);
        reveal_with_fuel(performed_all, 2);
        law_memory_kept(performed(framed, write.write()), after);
    }
}

/// A packet that finds no room is left where it is: memory, the write pointer
/// and the queue stay as they are.
pub proof fn law_no_room(
    mem: Memory,
    opts: Options,
    addr: u32,
    tx: TxState,
    ctrl: HostCtrl,
    packet: BtPacketBuf,
    read: u32,
)
    requires
        ring_free(read, tx.h2b_write_pointer) < frame_len(packet),
    ensures
        ({
            let step = offer(opts, addr, tx, ctrl, packet, read);
            &&& step.stage is Done
            &&& step.tx == tx
            &&& performed_all(mem, step.acts) == mem
            &&& !step.acts.contains(ActionView::ReleaseTx)
        }),
{
    law_memory_kept(mem, offer(opts, addr, tx, ctrl, packet, read).acts);
}

/// A packet that is sent goes where nothing waits to be read, and makes the
/// number of bytes that wait grow by the length of its frame.
pub proof fn law_unread_bytes_kept(
    opts: Options,
    addr: u32,
    tx: TxState,
    ctrl: HostCtrl,
    packet: BtPacketBuf,
    read: u32,
)
    requires
        tx_wf(addr, tx),
        framable(packet),
        ring_pointer(read),
        frame_len(packet) <= ring_free(read, tx.h2b_write_pointer),
    ensures
        ({
            let step = offer(opts, addr, tx, ctrl, packet, read);
            let p = tx.h2b_write_pointer;
            &&& ring_used(read, step.tx.h2b_write_pointer) == ring_used(read, p) + frame_len(packet)
            &&& forall|i: int, j: int|
                0 <= i < frame_len(packet) && 0 <= j < ring_used(read, p) ==> #[trigger] ring_moved(p, i)
                    != #[trigger] ring_moved(read, j)
        }),
{
    lemma_moved_twice(tx.h2b_write_pointer, 4, padded_len(body_len(packet)));
    law_free_bytes_are_free(read, tx.h2b_write_pointer, frame_len(packet));
}

/// What the Bluetooth core finds in the ring after a packet was sent is that
/// packet: its length, its type, and its bytes.
#[verifier::spinoff_prover]
#[verifier::rlimit(40)]
pub proof fn law_sent_packet_is_found(mem: Memory, addr: u32, tx: TxState, packet: BtPacketBuf)
    requires
        tx_wf(addr, tx),
        framable(packet),
    ensures
        ({
            let base = addr + BTSDIO_OFFSET_HOST_WRITE_BUF;
            let p = tx.h2b_write_pointer;
            let after = performed_all(mem, frame_writes(addr, tx, packet));
            let header = ring_loaded(after, base, p as int, 4);
            let body = ring_loaded(
                after,
                base,
                ring_moved(p, 4) as int,
                padded_len(header_len(header)) as nat,
            );
            seq![header[3]] + body.take(header_len(header)) == packet@
        }),
{
    let base = addr + BTSDIO_OFFSET_HOST_WRITE_BUF;
    let p = tx.h2b_write_pointer;
    let payload = packet_payload(packet);
    let after = performed_all(mem, frame_writes(addr, tx, packet));
    assert(after == ring_stored(
        ring_stored(mem, base, p as int, packet_header(packet)),
        base,
        ring_moved(p, 4) as int,
        payload,
    )) by {
        law_frame_is_stored(mem, addr, tx, packet);
        law_ring_store_in_pieces(mem, base, p as int, packet_header(packet), payload);
    }
    law_frame_round_trip(mem, base, p, body_len(packet), packet.buf@[0], payload);
    assert(seq![packet.buf@[0]] + payload.take(body_len(packet)) =~= packet@);
}

/// Whether a list of actions drops the packet from the queue.
pub open spec fn releases(acts: Seq<ActionView>) -> bool {
    acts.contains(ActionView::ReleaseTx)
}

proof fn lemma_releases(a: Seq<ActionView>, b: Seq<ActionView>)
    ensures
        releases(a + b) == (releases(a) || releases(b)),
{
    if releases(a) {
        let i = choose|i: int| 0 <= i < a.len() && a[i] == ActionView::ReleaseTx;
        assert((a + b)[i] == ActionView::ReleaseTx);
    }
    if releases(b) {
        let i = choose|i: int| 0 <= i < b.len() && b[i] == ActionView::ReleaseTx;
        assert((a + b)[a.len() + i] == ActionView::ReleaseTx);
    }
    if releases(a + b) {
        let i = choose|i: int| 0 <= i < (a + b).len() && (a + b)[i] == ActionView::ReleaseTx;
        if i < a.len() {
            assert(a[i] == ActionView::ReleaseTx);
        } else {
            assert(b[i - a.len()] == ActionView::ReleaseTx);
        }
    }
}

proof fn lemma_update_releases_nothing(
    opts: Options,
    ctrl: HostCtrl,
    update: HostCtrlUpdate,
    words: Seq<u32>,
)
    ensures
        !releases(update_begin(opts, ctrl, update.change).acts),
        !releases(update_next(opts, ctrl, update, words).acts),
{
    if let UpdateStage::Reading { sample } = update.stage {
        let logs = ctrl.sample_reports(SamplePhase::Read, words.last());
        let write = update_write(opts, ctrl.sampled(words.last()), update.change);
        assert(!releases(logs));
        assert(!releases(write.acts));
        lemma_releases(logs, write.acts);
    }
}

proof fn lemma_publish_releases_nothing(opts: Options, addr: u32, tx: TxState, ctrl: HostCtrl)
    ensures
        !releases(signal(opts, tx, ctrl).acts),
        !releases(publish(opts, addr, tx, ctrl).acts),
{
    let write = pointer_write(opts, addr, tx);
    let delay = optional(
        opts.tx_publish_delay,
        ActionView::Delay { micros: BT_RING_TX_PUBLISH_DELAY_US },
    );
    assert(!releases(signal(opts, tx, ctrl).acts));
    assert(!releases(delay + seq![write.write()]));
    lemma_releases(delay + seq![write.write()], signal(opts, tx, ctrl).acts);
}

proof fn lemma_send_releases_nothing(
    opts: Options,
    addr: u32,
    tx: TxState,
    ctrl: HostCtrl,
    packet: BtPacketBuf,
    words: Seq<u32>,
)
    ensures
        !releases(send(opts, addr, tx, ctrl, packet, words).acts),
{
    let logs = pointer_reports(BTSDIO_OFFSET_HOST2BT_OUT, words);
    let writes = frame_writes(addr, tx, packet);
    let reads = ring_reads(
        (addr + BTSDIO_OFFSET_HOST_WRITE_BUF) as u32,
        tx.h2b_write_pointer,
        frame_len(packet),
    );
    let moved = transmit(opts, addr, tx, ctrl, packet).tx;
    assert(!releases(writes));
    assert(!releases(reads));
    assert(!releases(logs));
    lemma_publish_releases_nothing(opts, addr, moved, ctrl);
    lemma_releases(writes, reads);
    lemma_releases(writes, publish(opts, addr, moved, ctrl).acts);
    if let Ok(read) = pointer_value(opts, words) {
        let step = offer(opts, addr, tx, ctrl, packet, read);
        assert(!releases(step.acts));
        lemma_releases(logs, step.acts);
    }
}

/// A packet leaves the queue only at the very end, once it was published.
pub proof fn law_release_comes_last(
    opts: Options,
    addr: u32,
    tx: TxState,
    ctrl: HostCtrl,
    stage: TxStage,
    replies: Seq<Reply>,
)
    ensures
        releases(tx_next(opts, addr, tx, ctrl, stage, replies).acts) <==> stage is Signalling,
        !releases(tx_begin(opts, tx, ctrl).acts),
{
    let step = update_begin(opts, ctrl, wake_up());
    let update = HostCtrlUpdate { change: wake_up(), stage: step.stage };
    lemma_update_releases_nothing(opts, ctrl, update, seq![]);
    assert(!releases(woken(tx, step.ctrl, update).acts));
    lemma_releases(step.acts, woken(tx, step.ctrl, update).acts);
    match stage {
        TxStage::Waking(update) => {
            let words = words_of(replies);
            lemma_update_releases_nothing(opts, ctrl, update, words);
            let step = update_next(opts, ctrl, update, words);
            let update = HostCtrlUpdate { change: update.change, stage: step.stage };
            assert(!releases(woken(tx, step.ctrl, update).acts));
            lemma_releases(step.acts, woken(tx, step.ctrl, update).acts);
        },
        TxStage::Awaiting(poll) => {
            let acts = poll.next_acts(word_of(replies[0]));
            assert(!releases(acts));
            assert(!releases(fetch(tx, ctrl).acts));
            lemma_releases(acts, fetch(tx, ctrl).acts);
        },
        TxStage::Fetching => {
            let logs = logged(inspection_report(opts, tx, replies[0]->Packet_0));
            let reads = pointer_reads(opts, addr, BTSDIO_OFFSET_HOST2BT_OUT);
            assert(!releases(logs));
            assert(!releases(reads));
            lemma_releases(logs, reads);
        },
        TxStage::Offering { packet, found } => {
            let words = pointer_words(opts, replies, 0);
            lemma_send_releases_nothing(opts, addr, tx, ctrl, packet, words);
        },
        TxStage::ReadingBack { start, packet, diag } => {
            let diff = diff_of(packet_header(packet) + packet_payload(packet), joined(replies));
            let readback = tx.readback.counted(diff.mismatches != 0);
            let kept = TxState { readback, ..tx };
            let logs = logged(readback_report(readback, diag.seq, diff));
            assert(!releases(logs));
            lemma_publish_releases_nothing(opts, addr, kept, ctrl);
            lemma_releases(logs, publish(opts, addr, kept, ctrl).acts);
        },
        TxStage::Publishing(write) => {
            let acts = write.next_acts(opts, word_of(replies[0]));
            assert(!releases(acts));
            lemma_publish_releases_nothing(opts, addr, tx, ctrl);
            lemma_releases(acts, signal(opts, tx, ctrl).acts);
        },
        TxStage::Signalling => {
            assert(tx_next(opts, addr, tx, ctrl, stage, replies).acts[1] == ActionView::ReleaseTx);
        },
        _ => {},
    }
}

/// How often a list of actions drops a packet from the queue.
pub open spec fn release_count(acts: Seq<ActionView>) -> nat
    decreases acts.len(),
{
    if acts.len() == 0 {
        0
    } else {
        release_count(acts.drop_last()) + if acts.last() is ReleaseTx {
            1nat
        } else {
            0
        }
    }
}

/// How often two lists of actions drop a packet, one after the other.
pub proof fn law_releases_in_turn(a: Seq<ActionView>, b: Seq<ActionView>)
    ensures
        release_count(a + b) == release_count(a) + release_count(b),
    decreases b.len(),
{
    if b.len() == 0 {
        assert(a + b =~= a);
    } else {
        law_releases_in_turn(a, b.drop_last());
        assert((a + b).drop_last() =~= a + b.drop_last());
    }
}

proof fn lemma_nothing_released(acts: Seq<ActionView>)
    requires
        !releases(acts),
    ensures
        release_count(acts) == 0,
    decreases acts.len(),
{
    if acts.len() > 0 {
        assert(acts[acts.len() - 1] != ActionView::ReleaseTx);
        assert(!releases(acts.drop_last())) by {
            if releases(acts.drop_last()) {
                let i = choose|i: int|
                    0 <= i < acts.len() - 1 && acts.drop_last()[i] == ActionView::ReleaseTx;
                assert(acts[i] == ActionView::ReleaseTx);
            }
        }
        lemma_nothing_released(acts.drop_last());
    }
}

/// The last step of sending a packet drops it from the queue once, and no other
/// step does.
pub proof fn law_released_once(
    opts: Options,
    addr: u32,
    tx: TxState,
    ctrl: HostCtrl,
    stage: TxStage,
    replies: Seq<Reply>,
)
    ensures
        release_count(tx_next(opts, addr, tx, ctrl, stage, replies).acts) == if stage is Signalling {
            1nat
        } else {
            0
        },
        release_count(tx_begin(opts, tx, ctrl).acts) == 0,
{
    let step = tx_next(opts, addr, tx, ctrl, stage, replies);
    law_release_comes_last(opts, addr, tx, ctrl, stage, replies);
    lemma_nothing_released(tx_begin(opts, tx, ctrl).acts);
    if stage is Signalling {
        let first = step.acts.take(1);
        assert(step.acts.drop_last() =~= first);
        lemma_nothing_released(first);
    } else {
        lemma_nothing_released(step.acts);
    }
}

} // verus!
