//! Receiving packets: whenever the Bluetooth core raises an interrupt, take one
//! packet after another out of the incoming ring, hand it over, publish the new
//! read pointer and raise an interrupt.

use vstd::prelude::*;

use crate::action::{
    answered, asks, byte_in, byte_of, logged, optional, word_in, word_of, words_of, Action,
    ActionView, Actions, Ask, Reply,
};
use crate::consts::{
    BTSDIO_FWBUF_SIZE, BTSDIO_OFFSET_BT2HOST_IN, BTSDIO_OFFSET_BT2HOST_OUT,
    BTSDIO_OFFSET_HOST_READ_BUF, BT_HCI_MTU, I_HMB_FC_CHANGE, MAX_RAM_BASE, SDIOD_CORE_BASE_ADDRESS,
    SDIO_INT_STATUS,
};
use crate::diff::{compare, diff_of, Diff};
use crate::host_ctrl::{
    bt_signal_intr, signal_change, update_begin, update_next, HostCtrl, HostCtrlUpdate, UpdateStage,
};
use crate::options::Options;
use crate::pointer::{
    pointer_asks, pointer_reads, pointer_reports, pointer_value, pointer_words, read_ring_pointer,
    ring_pointer_read, PointerStage, PointerWrite, READBACK_ATTEMPTS,
};
use crate::probe::{
    chunk_asks, chunk_reads, lemma_chunks_joined_len, packet_meta, probe_rx_packet_meta,
    read_in_chunks, ByteProbe, PacketMeta, ProbedByte, RxReadback,
};
use crate::report::{Fault, Report};
use crate::ring::{
    header_len, join_blocks, joined, lemma_joined_len, padded_len, ring_asks, ring_move, ring_moved,
    ring_pointer, ring_read, ring_reads, ring_used, used,
};
use crate::sentinel::{Sentinel, SentinelHit, SentinelView};
use crate::util::round_up;

verus! {

/// How long to wait before a packet is acknowledged, in microseconds.
pub const BT_RING_RX_OUT_DELAY_US: u64 = 10;

/// How long to wait before the interrupt, in microseconds.
pub const BT_RING_RX_INTR_DELAY_US: u64 = 10;

/// What receiving packets keeps from one packet to the next.
pub struct RxState {
    /// Where in the incoming ring the next frame is, or what follows its header.
    pub b2h_read_pointer: u32,
    /// The packets read twice.
    pub readback: RxReadback,
    /// The search for sentinel blocks.
    pub sentinel: Sentinel,
    /// The bytes read again.
    pub bytes: ByteProbe,
}

/// What receiving packets keeps from one packet to the next.
pub struct RxView {
    pub pointer: u32,
    pub readback: RxReadback,
    pub sentinel: SentinelView,
    pub bytes: ByteProbe,
}

impl View for RxState {
    type V = RxView;

    open spec fn view(&self) -> RxView {
        RxView {
            pointer: self.b2h_read_pointer,
            readback: self.readback,
            sentinel: self.sentinel@,
            bytes: self.bytes,
        }
    }
}

/// A received packet.
pub struct RxPacket {
    /// Its type byte.
    pub kind: u8,
    /// Its length without the type byte.
    pub len: u32,
    /// Where in the ring it starts.
    pub start: u32,
    /// The packet without its type byte, filled up to whole words.
    pub payload: Vec<u8>,
}

/// A received packet, with its bytes as a sequence.
pub struct RxPacketView {
    pub kind: u8,
    pub len: u32,
    pub start: u32,
    pub payload: Seq<u8>,
}

impl View for RxPacket {
    type V = RxPacketView;

    open spec fn view(&self) -> RxPacketView {
        RxPacketView { kind: self.kind, len: self.len, start: self.start, payload: self.payload@ }
    }
}

impl RxPacketView {
    /// The packet without its type byte.
    pub open spec fn valid(self) -> Seq<u8> {
        self.payload.take(self.len as int)
    }

    /// The packet.
    pub open spec fn bytes(self) -> Seq<u8> {
        seq![self.kind] + self.valid()
    }

    /// It has the length that it should have, starts in the ring and fits its
    /// buffer.
    pub open spec fn wf(self) -> bool {
        &&& self.payload.len() == padded_len(self.len as int)
        &&& self.payload.len() < BT_HCI_MTU
        &&& ring_pointer(self.start)
    }
}

/// Where the receiving of packets stands.
pub enum RxStage {
    /// The interrupt status has been asked for.
    Checking,
    /// The write pointer has been asked for.
    Polling,
    /// A header has been asked for; so many bytes wait in the ring.
    ReadingHeader { available: u32 },
    /// What follows the header has been asked for.
    ReadingPayload { kind: u8, len: u32 },
    /// The packet has been asked for again.
    ReadingTwice(RxPacket),
    /// It did not read the same twice, and the first byte that differs has been
    /// asked for once more.
    Differing { packet: RxPacket, diff: Diff },
    /// It has a damaged sentinel block in it, and the first wrong byte of that
    /// has been asked for again.
    Damaged { packet: RxPacket, hit: SentinelHit },
    /// One byte of the packet has been asked for again.
    Probing { packet: RxPacket, byte: ProbedByte },
    /// The read pointer is being published.
    Publishing { packet: RxPacket, write: PointerWrite },
    /// The interrupt is being raised.
    Signalling(HostCtrlUpdate),
    Done,
    Failed(Fault),
}

/// Where the receiving of packets stands, with packets as sequences.
pub enum RxStageView {
    Checking,
    Polling,
    ReadingHeader { available: u32 },
    ReadingPayload { kind: u8, len: u32 },
    ReadingTwice(RxPacketView),
    Differing { packet: RxPacketView, diff: Diff },
    Damaged { packet: RxPacketView, hit: SentinelHit },
    Probing { packet: RxPacketView, byte: ProbedByte },
    Publishing { packet: RxPacketView, write: PointerWrite },
    Signalling(HostCtrlUpdate),
    Done,
    Failed(Fault),
}

impl View for RxStage {
    type V = RxStageView;

    open spec fn view(&self) -> RxStageView {
        match self {
            RxStage::Checking => RxStageView::Checking,
            RxStage::Polling => RxStageView::Polling,
            RxStage::ReadingHeader { available } => RxStageView::ReadingHeader {
                available: *available,
            },
            RxStage::ReadingPayload { kind, len } => RxStageView::ReadingPayload {
                kind: *kind,
                len: *len,
            },
            RxStage::ReadingTwice(packet) => RxStageView::ReadingTwice(packet@),
            RxStage::Differing { packet, diff } => RxStageView::Differing {
                packet: packet@,
                diff: *diff,
            },
            RxStage::Damaged { packet, hit } => RxStageView::Damaged { packet: packet@, hit: *hit },
            RxStage::Probing { packet, byte } => RxStageView::Probing { packet: packet@, byte: *byte },
            RxStage::Publishing { packet, write } => RxStageView::Publishing {
                packet: packet@,
                write: *write,
            },
            RxStage::Signalling(update) => RxStageView::Signalling(*update),
            RxStage::Done => RxStageView::Done,
            RxStage::Failed(fault) => RxStageView::Failed(*fault),
        }
    }
}

/// One step of receiving packets: what is kept, the register and the stage after
/// it, and the actions asked for.
pub struct RxStep {
    pub rx: RxView,
    pub ctrl: HostCtrl,
    pub stage: RxStageView,
    pub acts: Seq<ActionView>,
}

impl RxStep {
    /// The step with other actions before it.
    pub open spec fn after(self, acts: Seq<ActionView>) -> RxStep {
        RxStep { acts: acts + self.acts, ..self }
    }
}

/// Where the incoming ring starts.
pub open spec fn rx_base(addr: u32) -> u32 {
    (addr + BTSDIO_OFFSET_HOST_READ_BUF) as u32
}

/// The interrupt status register.
pub open spec fn int_status_addr() -> u32 {
    (SDIOD_CORE_BASE_ADDRESS + SDIO_INT_STATUS) as u32
}

/// The read of one byte in the ring.
pub open spec fn byte_read(addr: u32, position: u32) -> ActionView {
    ActionView::Read8 { addr: (rx_base(addr) + position) as u32 }
}

/// The read of the interrupt status.
pub open spec fn rx_begin() -> Seq<ActionView> {
    seq![ActionView::Read32 { addr: int_status_addr() }]
}

/// Asks for the write pointer.
pub open spec fn ask_pointer(opts: Options, addr: u32, rx: RxView, ctrl: HostCtrl) -> RxStep {
    RxStep {
        rx,
        ctrl,
        stage: RxStageView::Polling,
        acts: pointer_reads(opts, addr, BTSDIO_OFFSET_BT2HOST_IN),
    }
}

/// Goes on if the Bluetooth core raised an interrupt, which is then cleared.
pub open spec fn checked(
    opts: Options,
    addr: u32,
    rx: RxView,
    ctrl: HostCtrl,
    status: u32,
) -> RxStep {
    let raised = status & I_HMB_FC_CHANGE;
    if raised != 0 {
        ask_pointer(opts, addr, rx, ctrl).after(
            seq![ActionView::Write32 { addr: int_status_addr(), value: raised }],
        )
    } else {
        RxStep { rx, ctrl, stage: RxStageView::Done, acts: seq![] }
    }
}

/// Asks for a header, if there is something in the ring.
pub open spec fn pointed(
    opts: Options,
    addr: u32,
    rx: RxView,
    ctrl: HostCtrl,
    words: Seq<u32>,
) -> RxStep {
    match pointer_value(opts, words) {
        Err(fault) => RxStep { rx, ctrl, stage: RxStageView::Failed(fault), acts: seq![] },
        Ok(write) => {
            let available = ring_used(rx.pointer, write);
            let reports = pointer_reports(BTSDIO_OFFSET_BT2HOST_IN, words);
            if available == 0 {
                RxStep { rx, ctrl, stage: RxStageView::Done, acts: reports }
            } else {
                RxStep {
                    rx,
                    ctrl,
                    stage: RxStageView::ReadingHeader { available: available as u32 },
                    acts: reports + ring_reads(rx_base(addr), rx.pointer, 4),
                }
            }
        },
    }
}

/// Asks for what follows a header, if all of it is in the ring.
pub open spec fn framed(
    addr: u32,
    rx: RxView,
    ctrl: HostCtrl,
    available: u32,
    header: Seq<u8>,
) -> RxStep {
    let len = header_len(header);
    let rounded = padded_len(len);
    let moved = RxView { pointer: ring_moved(rx.pointer, 4), ..rx };
    if available < 4 + rounded {
        RxStep {
            rx,
            ctrl,
            stage: RxStageView::Done,
            acts: seq![ActionView::Log { report: Report::RxIncomplete }],
        }
    } else if rounded >= BT_HCI_MTU {
        RxStep {
            rx: moved,
            ctrl,
            stage: RxStageView::Failed(Fault::RxTooLong),
            acts: seq![ActionView::ReserveRx],
        }
    } else {
        RxStep {
            rx: moved,
            ctrl,
            stage: RxStageView::ReadingPayload { kind: header[3], len: len as u32 },
            acts: seq![ActionView::ReserveRx] + ring_reads(rx_base(addr), moved.pointer, rounded),
        }
    }
}

/// Goes on as far as the raising of the interrupt allows.
pub open spec fn signalled(
    opts: Options,
    addr: u32,
    rx: RxView,
    ctrl: HostCtrl,
    update: HostCtrlUpdate,
) -> RxStep {
    match update.stage {
        UpdateStage::Done => ask_pointer(opts, addr, rx, ctrl),
        UpdateStage::Failed(fault) => RxStep {
            rx,
            ctrl,
            stage: RxStageView::Failed(fault),
            acts: seq![],
        },
        _ => RxStep { rx, ctrl, stage: RxStageView::Signalling(update), acts: seq![] },
    }
}

/// Hands a packet over and raises an interrupt.
pub open spec fn submit(
    opts: Options,
    addr: u32,
    rx: RxView,
    ctrl: HostCtrl,
    packet: RxPacketView,
) -> RxStep {
    let change = signal_change(opts);
    let step = update_begin(opts, ctrl, change);
    let update = HostCtrlUpdate { change, stage: step.stage };
    signalled(opts, addr, rx, step.ctrl, update).after(
        seq![ActionView::SubmitRx { data: packet.bytes() }] + optional(
            opts.rx_intr_delay,
            ActionView::Delay { micros: BT_RING_RX_INTR_DELAY_US },
        ) + step.acts,
    )
}

/// The write of the read pointer.
pub open spec fn out_write(opts: Options, addr: u32, pointer: u32) -> PointerWrite {
    PointerWrite {
        addr,
        offset: BTSDIO_OFFSET_BT2HOST_OUT,
        value: pointer,
        stage: if opts.pointer_write_readback {
            PointerStage::Verifying { left: (READBACK_ATTEMPTS - 1) as u32 }
        } else {
            PointerStage::Done
        },
    }
}

/// Publishes the new read pointer and hands the packet over.
pub open spec fn finish(
    opts: Options,
    addr: u32,
    rx: RxView,
    ctrl: HostCtrl,
    packet: RxPacketView,
) -> RxStep {
    let moved = RxView { pointer: ring_moved(rx.pointer, packet.payload.len() as int), ..rx };
    let write = out_write(opts, addr, moved.pointer);
    let delay = optional(
        opts.rx_out_delay,
        ActionView::Delay { micros: BT_RING_RX_OUT_DELAY_US },
    );
    if opts.pointer_write_readback {
        RxStep {
            rx: moved,
            ctrl,
            stage: RxStageView::Publishing { packet, write },
            acts: delay + seq![write.write(), write.read()],
        }
    } else {
        submit(opts, addr, moved, ctrl, packet).after(delay + seq![write.write()])
    }
}

/// Reports on the bytes read again, when it is time to, and goes on.
pub open spec fn sampled(
    opts: Options,
    addr: u32,
    rx: RxView,
    ctrl: HostCtrl,
    packet: RxPacketView,
) -> RxStep {
    finish(opts, addr, rx, ctrl, packet).after(logged(rx.bytes.summary()))
}

/// Asks for a byte of a packet again, if the packet is long enough, and goes on
/// with `otherwise` if it is not.
pub open spec fn probe(
    addr: u32,
    rx: RxView,
    ctrl: HostCtrl,
    packet: RxPacketView,
    byte: ProbedByte,
    otherwise: RxStep,
) -> RxStep {
    if packet.len > byte.at() {
        RxStep {
            rx,
            ctrl,
            stage: RxStageView::Probing { packet, byte },
            acts: seq![byte_read(addr, ring_moved(packet.start, byte.at() as int))],
        }
    } else {
        otherwise
    }
}

/// Asks for the second byte again.
pub open spec fn probe_o9(
    opts: Options,
    addr: u32,
    rx: RxView,
    ctrl: HostCtrl,
    packet: RxPacketView,
) -> RxStep {
    probe(addr, rx, ctrl, packet, ProbedByte::O9, sampled(opts, addr, rx, ctrl, packet))
}

/// Asks for the first byte again.
pub open spec fn probe_o4(
    opts: Options,
    addr: u32,
    rx: RxView,
    ctrl: HostCtrl,
    packet: RxPacketView,
) -> RxStep {
    probe(addr, rx, ctrl, packet, ProbedByte::O4, probe_o9(opts, addr, rx, ctrl, packet))
}

/// Counts a byte that was read again, and goes on.
pub open spec fn probed(
    opts: Options,
    addr: u32,
    rx: RxView,
    ctrl: HostCtrl,
    packet: RxPacketView,
    byte: ProbedByte,
    single: u8,
) -> RxStep {
    let bulk = packet.payload[byte.at() as int];
    let kept = RxView { bytes: rx.bytes.checked(byte, bulk != single), ..rx };
    let report = Report::ByteProbeBad {
        probe_offset: byte.at(),
        bulk,
        single,
        ring_offset: ring_moved(packet.start, byte.at() as int),
    };
    let next = match byte {
        ProbedByte::O4 => probe_o9(opts, addr, kept, ctrl, packet),
        ProbedByte::O9 => sampled(opts, addr, kept, ctrl, packet),
    };
    next.after(optional(bulk != single, ActionView::Log { report }))
}

/// Reads bytes of a packet again, where the options ask for it and it is time to.
pub open spec fn sample(
    opts: Options,
    addr: u32,
    rx: RxView,
    ctrl: HostCtrl,
    packet: RxPacketView,
) -> RxStep {
    if opts.rx_byte_probe {
        let kept = RxView { bytes: rx.bytes.counted(), ..rx };
        if kept.bytes.due() {
            probe_o4(opts, addr, kept, ctrl, packet)
        } else {
            sampled(opts, addr, kept, ctrl, packet)
        }
    } else {
        finish(opts, addr, rx, ctrl, packet)
    }
}

/// Reports on the sentinel blocks, when it is time to, and goes on.
pub open spec fn searched(
    opts: Options,
    addr: u32,
    rx: RxView,
    ctrl: HostCtrl,
    packet: RxPacketView,
) -> RxStep {
    sample(opts, addr, rx, ctrl, packet).after(logged(rx.sentinel.summary()))
}

/// Searches a packet for damaged sentinel blocks, where the options ask for it.
pub open spec fn search(
    opts: Options,
    addr: u32,
    rx: RxView,
    ctrl: HostCtrl,
    packet: RxPacketView,
) -> RxStep {
    if opts.rx_sentinel_probe {
        let valid = packet.valid();
        let kept = RxView {
            sentinel: rx.sentinel.observed(packet.kind, valid, packet.start),
            ..rx
        };
        match rx.sentinel.found(packet.kind, valid, packet.start) {
            Some(hit) => RxStep {
                rx: kept,
                ctrl,
                stage: RxStageView::Damaged { packet, hit },
                acts: seq![byte_read(addr, hit.ring_offset)],
            },
            None => searched(opts, addr, kept, ctrl, packet),
        }
    } else {
        sample(opts, addr, rx, ctrl, packet)
    }
}

/// Reports a damaged sentinel block, and goes on.
pub open spec fn damage_shown(
    opts: Options,
    addr: u32,
    rx: RxView,
    ctrl: HostCtrl,
    packet: RxPacketView,
    hit: SentinelHit,
    single: u8,
) -> RxStep {
    let report = Report::SentinelBad {
        acl_offset: hit.acl_offset,
        cross_boundary: hit.cross_boundary,
        tail_index: hit.tail_index,
        bulk: hit.bulk,
        single,
        ring_offset: hit.ring_offset,
        got_tail: hit.got_tail,
    };
    searched(opts, addr, rx, ctrl, packet).after(seq![ActionView::Log { report }])
}

/// Reports on the packets read twice, when it is time to, and goes on.
pub open spec fn reread(
    opts: Options,
    addr: u32,
    rx: RxView,
    ctrl: HostCtrl,
    packet: RxPacketView,
) -> RxStep {
    search(opts, addr, rx, ctrl, packet).after(logged(rx.readback.summary()))
}

/// Reads a packet again, where the options ask for it and it is time to.
pub open spec fn received(
    opts: Options,
    addr: u32,
    rx: RxView,
    ctrl: HostCtrl,
    packet: RxPacketView,
) -> RxStep {
    if opts.rx_readback_probe {
        let kept = RxView { readback: rx.readback.counted(), ..rx };
        if kept.readback.due() {
            RxStep {
                rx: kept,
                ctrl,
                stage: RxStageView::ReadingTwice(packet),
                acts: chunk_reads(rx_base(addr), packet.start, packet.payload.len() as int),
            }
        } else {
            reread(opts, addr, kept, ctrl, packet)
        }
    } else {
        search(opts, addr, rx, ctrl, packet)
    }
}

/// Compares a packet with what it read as the second time.
pub open spec fn compared(
    opts: Options,
    addr: u32,
    rx: RxView,
    ctrl: HostCtrl,
    packet: RxPacketView,
    again: Seq<u8>,
) -> RxStep {
    let diff = diff_of(packet.payload, again);
    if diff.mismatches != 0 {
        RxStep {
            rx: RxView { readback: rx.readback.differed(diff.mismatches), ..rx },
            ctrl,
            stage: RxStageView::Differing { packet, diff },
            acts: seq![byte_read(addr, ring_moved(packet.start, diff.first_offset as int))],
        }
    } else {
        reread(opts, addr, rx, ctrl, packet)
    }
}

/// What there is to report of a packet that did not read the same twice.
pub open spec fn difference_report(
    counters: RxReadback,
    packet: RxPacketView,
    diff: Diff,
    single: u8,
) -> Report {
    let meta = packet_meta(packet.kind, packet.valid());
    Report::RxReadbackBad {
        hci_type: packet.kind,
        acl_handle: meta.acl_handle,
        acl_pb: meta.acl_pb,
        l2cap_cid: meta.l2cap_cid,
        repro_seq: meta.repro_seq,
        len: packet.len,
        rounded_len: packet.payload.len() as u32,
        offset: diff.first_offset,
        ring_offset: ring_moved(packet.start, diff.first_offset as int),
        got: diff.first_actual,
        expected: diff.first_expected,
        single,
        mismatched: diff.mismatches,
        bad: counters.mismatch_packets,
        sampled: counters.sampled,
    }
}

/// Reports that a packet did not read the same twice, and goes on.
pub open spec fn difference_shown(
    opts: Options,
    addr: u32,
    rx: RxView,
    ctrl: HostCtrl,
    packet: RxPacketView,
    diff: Diff,
    single: u8,
) -> RxStep {
    let report = difference_report(rx.readback, packet, diff, single);
    reread(opts, addr, rx, ctrl, packet).after(seq![ActionView::Log { report }])
}

/// Goes on after the read pointer read back as `got`.
pub open spec fn published(
    opts: Options,
    addr: u32,
    rx: RxView,
    ctrl: HostCtrl,
    packet: RxPacketView,
    write: PointerWrite,
    got: u32,
) -> RxStep {
    let acts = write.next_acts(opts, got);
    match write.next_stage(opts, got) {
        PointerStage::Done => submit(opts, addr, rx, ctrl, packet).after(acts),
        PointerStage::Failed(fault) => RxStep { rx, ctrl, stage: RxStageView::Failed(fault), acts },
        stage => RxStep {
            rx,
            ctrl,
            stage: RxStageView::Publishing { packet, write: PointerWrite { stage, ..write } },
            acts,
        },
    }
}

/// Goes on with the raising of the interrupt, given what the register read as.
pub open spec fn signalling(
    opts: Options,
    addr: u32,
    rx: RxView,
    ctrl: HostCtrl,
    update: HostCtrlUpdate,
    words: Seq<u32>,
) -> RxStep {
    let step = update_next(opts, ctrl, update, words);
    let update = HostCtrlUpdate { change: update.change, stage: step.stage };
    signalled(opts, addr, rx, step.ctrl, update).after(step.acts)
}

/// Goes on receiving packets.
pub open spec fn rx_next(
    opts: Options,
    addr: u32,
    rx: RxView,
    ctrl: HostCtrl,
    stage: RxStageView,
    replies: Seq<Reply>,
) -> RxStep {
    match stage {
        RxStageView::Checking => checked(opts, addr, rx, ctrl, word_of(replies[0])),
        RxStageView::Polling => pointed(opts, addr, rx, ctrl, pointer_words(opts, replies, 0)),
        RxStageView::ReadingHeader { available } => framed(addr, rx, ctrl, available, joined(replies)),
        RxStageView::ReadingPayload { kind, len } => {
            let packet = RxPacketView { kind, len, start: rx.pointer, payload: joined(replies) };
            received(opts, addr, rx, ctrl, packet)
        },
        RxStageView::ReadingTwice(packet) => compared(opts, addr, rx, ctrl, packet, joined(replies)),
        RxStageView::Differing { packet, diff } => difference_shown(
            opts,
            addr,
            rx,
            ctrl,
            packet,
            diff,
            byte_of(replies[0]),
        ),
        RxStageView::Damaged { packet, hit } => damage_shown(
            opts,
            addr,
            rx,
            ctrl,
            packet,
            hit,
            byte_of(replies[0]),
        ),
        RxStageView::Probing { packet, byte } => probed(
            opts,
            addr,
            rx,
            ctrl,
            packet,
            byte,
            byte_of(replies[0]),
        ),
        RxStageView::Publishing { packet, write } => published(
            opts,
            addr,
            rx,
            ctrl,
            packet,
            write,
            word_of(replies[0]),
        ),
        RxStageView::Signalling(update) => signalling(
            opts,
            addr,
            rx,
            ctrl,
            update,
            words_of(replies),
        ),
        _ => RxStep { rx, ctrl, stage, acts: seq![] },
    }
}

/// The replies that a stage waits for.
pub open spec fn rx_asks(opts: Options, rx: RxView, stage: RxStageView) -> Seq<Ask> {
    match stage {
        RxStageView::Checking => seq![Ask::Word],
        RxStageView::Polling => pointer_asks(opts),
        RxStageView::ReadingHeader { .. } => ring_asks(rx.pointer, 4),
        RxStageView::ReadingPayload { kind, len } => ring_asks(rx.pointer, padded_len(len as int)),
        RxStageView::ReadingTwice(packet) => chunk_asks(packet.start, packet.payload.len() as int),
        RxStageView::Differing { .. } => seq![Ask::Byte],
        RxStageView::Damaged { .. } => seq![Ask::Byte],
        RxStageView::Probing { .. } => seq![Ask::Byte],
        RxStageView::Publishing { packet, write } => write.awaited(),
        RxStageView::Signalling(update) => update.awaited(opts),
        _ => seq![],
    }
}

/// Whether the shared buffers and the read pointer are where they can be.
pub open spec fn rx_wf(addr: u32, rx: RxView) -> bool {
    addr <= MAX_RAM_BASE && ring_pointer(rx.pointer) && rx.sentinel.wf()
}

/// What holds of a stage.
pub open spec fn rx_stage_wf(opts: Options, stage: RxStageView) -> bool {
    match stage {
        RxStageView::ReadingHeader { available } => available < BTSDIO_FWBUF_SIZE,
        RxStageView::ReadingPayload { kind, len } => padded_len(len as int) < BT_HCI_MTU,
        RxStageView::ReadingTwice(packet) => packet.wf(),
        RxStageView::Differing { packet, diff } => packet.wf(),
        RxStageView::Damaged { packet, hit } => packet.wf() && hit.ring_offset < BTSDIO_FWBUF_SIZE,
        RxStageView::Probing { packet, byte } => packet.wf() && packet.len > byte.at(),
        RxStageView::Publishing { packet, write } => {
            packet.wf() && write.wf() && write.stage is Verifying
        },
        RxStageView::Signalling(update) => update.wf(opts) && update.running(),
        _ => true,
    }
}

/// Whether a step leads to this.
pub open spec fn took(
    step: RxStep,
    rx: RxView,
    ctrl: HostCtrl,
    stage: RxStageView,
    before: Seq<ActionView>,
    after: Seq<ActionView>,
) -> bool {
    &&& rx == step.rx
    &&& ctrl == step.ctrl
    &&& stage == step.stage
    &&& after == before + step.acts
}

/// Whether everything is as it should be after a step, and the actions asked for
/// are answered by what the new stage waits for.
pub open spec fn settled(
    opts: Options,
    addr: u32,
    rx: RxView,
    stage: RxStageView,
    before: Seq<ActionView>,
    after: Seq<ActionView>,
) -> bool {
    &&& rx_wf(addr, rx)
    &&& rx_stage_wf(opts, stage)
    &&& asks(after) == asks(before) + rx_asks(opts, rx, stage)
}

/// The receiving of packets after an interrupt.
pub struct HandleIrq {
    pub stage: RxStage,
}

impl HandleIrq {
    /// The replies that are awaited.
    pub open spec fn awaited(self, opts: Options, rx: RxView) -> Seq<Ask> {
        rx_asks(opts, rx, self.stage@)
    }

    /// Whether there is something left to do.
    pub open spec fn running(self) -> bool {
        !(self.stage is Done || self.stage is Failed)
    }

    /// What holds of a stage.
    pub open spec fn wf(self, opts: Options) -> bool {
        rx_stage_wf(opts, self.stage@)
    }

    fn ask_pointer(
        opts: &Options,
        addr: u32,
        rx: &RxState,
        ctrl: &HostCtrl,
        acts: &mut Actions,
    ) -> (stage: RxStage)
        requires
            rx_wf(addr, rx@),
        ensures
            took(ask_pointer(*opts, addr, rx@, *ctrl), rx@, *ctrl, stage@, old(acts)@, final(acts)@),
            settled(*opts, addr, rx@, stage@, old(acts)@, final(acts)@),
    {
        read_ring_pointer(opts, addr, BTSDIO_OFFSET_BT2HOST_IN, acts);
        RxStage::Polling
    }

    fn checked(
        opts: &Options,
        addr: u32,
        rx: &RxState,
        ctrl: &HostCtrl,
        replies: &Vec<Reply>,
        acts: &mut Actions,
    ) -> (stage: RxStage)
        requires
            rx_wf(addr, rx@),
            answered(rx_asks(*opts, rx@, RxStageView::Checking), replies@),
        ensures
            took(
                checked(*opts, addr, rx@, *ctrl, word_of(replies@[0])),
                rx@,
                *ctrl,
                stage@,
                old(acts)@,
                final(acts)@,
            ),
            settled(*opts, addr, rx@, stage@, old(acts)@, final(acts)@),
    {
        assert(acts@ =~= acts@ + Seq::<ActionView>::empty());
        assert(asks(acts@) =~= asks(acts@) + Seq::<Ask>::empty());
        assert(replies@[0] is Word);
        let status: u32 = word_in(replies, 0);
        let ghost step = checked(*opts, addr, rx@, *ctrl, status);
        let raised: u32 = status & I_HMB_FC_CHANGE;
        if raised != 0 {
            let status_addr: u32 = SDIOD_CORE_BASE_ADDRESS + SDIO_INT_STATUS;
            acts.push(Action::Write32 { addr: status_addr, value: raised });
            let stage: RxStage = Self::ask_pointer(opts, addr, rx, ctrl, acts);
            assert(acts@ =~= old(acts)@ + step.acts);
            stage
        } else {
            RxStage::Done
        }
    }

    fn pointed(
        opts: &Options,
        addr: u32,
        rx: &RxState,
        ctrl: &HostCtrl,
        replies: &Vec<Reply>,
        acts: &mut Actions,
    ) -> (stage: RxStage)
        requires
            rx_wf(addr, rx@),
            answered(rx_asks(*opts, rx@, RxStageView::Polling), replies@),
        ensures
            took(
                pointed(*opts, addr, rx@, *ctrl, pointer_words(*opts, replies@, 0)),
                rx@,
                *ctrl,
                stage@,
                old(acts)@,
                final(acts)@,
            ),
            settled(*opts, addr, rx@, stage@, old(acts)@, final(acts)@),
    {
        let ghost step = pointed(*opts, addr, rx@, *ctrl, pointer_words(*opts, replies@, 0));
        assert(asks(acts@) =~= asks(acts@) + Seq::<Ask>::empty());
        assert(forall|i: int| 0 <= i < pointer_asks(*opts).len() ==> #[trigger] replies@[i] is Word);
        match ring_pointer_read(opts, BTSDIO_OFFSET_BT2HOST_IN, replies, 0, acts) {
            Err(fault) => RxStage::Failed(fault),
            Ok(write) => {
                let available: u32 = used(rx.b2h_read_pointer, write);
                if available == 0 {
                    RxStage::Done
                } else {
                    ring_read(acts, addr + BTSDIO_OFFSET_HOST_READ_BUF, rx.b2h_read_pointer, 4);
                    assert(acts@ =~= old(acts)@ + step.acts);
                    RxStage::ReadingHeader { available }
                }
            },
        }
    }

    fn framed(
        opts: &Options,
        addr: u32,
        rx: &mut RxState,
        ctrl: &HostCtrl,
        available: u32,
        replies: &Vec<Reply>,
        acts: &mut Actions,
    ) -> (stage: RxStage)
        requires
            rx_wf(addr, old(rx)@),
            available < BTSDIO_FWBUF_SIZE,
            answered(rx_asks(*opts, old(rx)@, RxStageView::ReadingHeader { available }), replies@),
        ensures
            took(
                framed(addr, old(rx)@, *ctrl, available, joined(replies@)),
                final(rx)@,
                *ctrl,
                stage@,
                old(acts)@,
                final(acts)@,
            ),
            settled(*opts, addr, final(rx)@, stage@, old(acts)@, final(acts)@),
    {
        let ghost step = framed(addr, rx@, *ctrl, available, joined(replies@));
        assert(asks(acts@) =~= asks(acts@) + Seq::<Ask>::empty());
        assert(replies@[0] is Block);
        assert(replies@.take(1) =~= replies@);
        proof {
            lemma_joined_len(replies@, rx.b2h_read_pointer, 4);
        }
        let header: Vec<u8> = join_blocks(replies, 1);
        let len: u32 = header[0] as u32 + 0x100 * header[1] as u32 + 0x1_0000 * header[2] as u32;
        let rounded_len: u32 = round_up(len, 4);
        if available < 4 + rounded_len {
            acts.push(Action::Log { report: Report::RxIncomplete });
            assert(acts@ =~= old(acts)@ + step.acts);
            return RxStage::Done;
        }
        rx.b2h_read_pointer = ring_move(rx.b2h_read_pointer, 4);
        acts.push(Action::ReserveRx);
        if rounded_len as usize >= BT_HCI_MTU {
            assert(acts@ =~= old(acts)@ + step.acts);
            return RxStage::Failed(Fault::RxTooLong);
        }
        ring_read(
            acts,
            addr + BTSDIO_OFFSET_HOST_READ_BUF,
            rx.b2h_read_pointer,
            rounded_len as usize,
        );
        assert(acts@ =~= old(acts)@ + step.acts);
        RxStage::ReadingPayload { kind: header[3], len }
    }

    fn signalled(
        opts: &Options,
        addr: u32,
        rx: &RxState,
        ctrl: &HostCtrl,
        update: HostCtrlUpdate,
        acts: &mut Actions,
    ) -> (stage: RxStage)
        requires
            rx_wf(addr, rx@),
            update.wf(*opts),
        ensures
            took(
                signalled(*opts, addr, rx@, *ctrl, update),
                rx@,
                *ctrl,
                stage@,
                old(acts)@,
                final(acts)@,
            ),
            rx_stage_wf(*opts, stage@),
            asks(final(acts)@) == if update.running() {
                asks(old(acts)@)
            } else {
                asks(old(acts)@) + rx_asks(*opts, rx@, stage@)
            },
    {
        assert(acts@ =~= acts@ + Seq::<ActionView>::empty());
        assert(asks(acts@) =~= asks(acts@) + Seq::<Ask>::empty());
        match update.stage {
            UpdateStage::Done => Self::ask_pointer(opts, addr, rx, ctrl, acts),
            UpdateStage::Failed(fault) => RxStage::Failed(fault),
            _ => RxStage::Signalling(update),
        }
    }

    /// The packet, as it is handed over.
    fn whole(packet: &RxPacket) -> (data: Vec<u8>)
        requires
            packet@.wf(),
        ensures
            data@ == packet@.bytes(),
    {
        let mut data: Vec<u8> = Vec::new();
        data.push(packet.kind);
        let n: usize = packet.len as usize;
        let mut i: usize = 0;
        while i < n
            invariant
                i <= n <= packet.payload@.len(),
                data@ == seq![packet.kind] + packet.payload@.take(i as int),
            decreases n - i,
        {
            data.push(packet.payload[i]);
            i = i + 1;
            assert(data@ =~= seq![packet.kind] + packet.payload@.take(i as int));
        }
        data
    }

    fn submit(
        opts: &Options,
        addr: u32,
        rx: &RxState,
        ctrl: &mut HostCtrl,
        packet: &RxPacket,
        acts: &mut Actions,
    ) -> (stage: RxStage)
        requires
            rx_wf(addr, rx@),
            packet@.wf(),
        ensures
            took(
                submit(*opts, addr, rx@, *old(ctrl), packet@),
                rx@,
                *final(ctrl),
                stage@,
                old(acts)@,
                final(acts)@,
            ),
            settled(*opts, addr, rx@, stage@, old(acts)@, final(acts)@),
    {
        let ghost step = submit(*opts, addr, rx@, *ctrl, packet@);
        acts.push(Action::SubmitRx { data: Self::whole(packet) });
        if opts.rx_intr_delay {
            acts.push(Action::Delay { micros: BT_RING_RX_INTR_DELAY_US });
        }
        let ghost mid = acts@;
        let update: HostCtrlUpdate = HostCtrlUpdate::start(bt_signal_intr(opts), opts, ctrl, acts);
        assert(!update.running() ==> asks(acts@) =~= asks(old(acts)@));
        let stage: RxStage = Self::signalled(opts, addr, rx, ctrl, update, acts);
        assert(acts@ =~= old(acts)@ + step.acts);
        stage
    }

    fn finish(
        opts: &Options,
        addr: u32,
        rx: &mut RxState,
        ctrl: &mut HostCtrl,
        packet: RxPacket,
        acts: &mut Actions,
    ) -> (stage: RxStage)
        requires
            rx_wf(addr, old(rx)@),
            packet@.wf(),
        ensures
            took(
                finish(*opts, addr, old(rx)@, *old(ctrl), packet@),
                final(rx)@,
                *final(ctrl),
                stage@,
                old(acts)@,
                final(acts)@,
            ),
            settled(*opts, addr, final(rx)@, stage@, old(acts)@, final(acts)@),
    {
        let ghost step = finish(*opts, addr, rx@, *ctrl, packet@);
        rx.b2h_read_pointer = ring_move(rx.b2h_read_pointer, packet.payload.len() as u32);
        if opts.rx_out_delay {
            acts.push(Action::Delay { micros: BT_RING_RX_OUT_DELAY_US });
        }
        let write: PointerWrite = PointerWrite::start(
            opts,
            addr,
            BTSDIO_OFFSET_BT2HOST_OUT,
            rx.b2h_read_pointer,
            acts,
        );
        assert(asks(acts@) =~= asks(old(acts)@) + write.awaited());
        if opts.pointer_write_readback {
            assert(acts@ =~= old(acts)@ + step.acts);
            RxStage::Publishing { packet, write }
        } else {
            assert(asks(acts@) =~= asks(old(acts)@));
            let stage: RxStage = Self::submit(opts, addr, rx, ctrl, &packet, acts);
            assert(acts@ =~= old(acts)@ + step.acts);
            stage
        }
    }

    fn sampled(
        opts: &Options,
        addr: u32,
        rx: &mut RxState,
        ctrl: &mut HostCtrl,
        packet: RxPacket,
        acts: &mut Actions,
    ) -> (stage: RxStage)
        requires
            rx_wf(addr, old(rx)@),
            packet@.wf(),
        ensures
            took(
                sampled(*opts, addr, old(rx)@, *old(ctrl), packet@),
                final(rx)@,
                *final(ctrl),
                stage@,
                old(acts)@,
                final(acts)@,
            ),
            settled(*opts, addr, final(rx)@, stage@, old(acts)@, final(acts)@),
    {
        let ghost step = sampled(*opts, addr, rx@, *ctrl, packet@);
        rx.bytes.summarise(acts);
        let stage: RxStage = Self::finish(opts, addr, rx, ctrl, packet, acts);
        assert(acts@ =~= old(acts)@ + step.acts);
        stage
    }

    fn probe_byte(
        addr: u32,
        packet: RxPacket,
        byte: ProbedByte,
        acts: &mut Actions,
    ) -> (stage: RxStage)
        requires
            addr <= MAX_RAM_BASE,
            packet@.wf(),
        ensures
            stage@ == (RxStageView::Probing { packet: packet@, byte }),
            final(acts)@ == old(acts)@ + seq![
                byte_read(addr, ring_moved(packet.start, byte.at() as int)),
            ],
            asks(final(acts)@) == asks(old(acts)@) + seq![Ask::Byte],
    {
        let position: u32 = ring_move(packet.start, byte.offset() as u32);
        acts.push(Action::Read8 { addr: addr + BTSDIO_OFFSET_HOST_READ_BUF + position });
        assert(acts@ =~= old(acts)@ + seq![
            byte_read(addr, ring_moved(packet.start, byte.at() as int)),
        ]);
        assert(asks(acts@) =~= asks(old(acts)@) + seq![Ask::Byte]);
        RxStage::Probing { packet, byte }
    }

    fn probe_o9(
        opts: &Options,
        addr: u32,
        rx: &mut RxState,
        ctrl: &mut HostCtrl,
        packet: RxPacket,
        acts: &mut Actions,
    ) -> (stage: RxStage)
        requires
            rx_wf(addr, old(rx)@),
            packet@.wf(),
        ensures
            took(
                probe_o9(*opts, addr, old(rx)@, *old(ctrl), packet@),
                final(rx)@,
                *final(ctrl),
                stage@,
                old(acts)@,
                final(acts)@,
            ),
            settled(*opts, addr, final(rx)@, stage@, old(acts)@, final(acts)@),
    {
        let byte: ProbedByte = ProbedByte::O9;
        if packet.len as usize > byte.offset() {
            Self::probe_byte(addr, packet, byte, acts)
        } else {
            Self::sampled(opts, addr, rx, ctrl, packet, acts)
        }
    }

    fn probe_o4(
        opts: &Options,
        addr: u32,
        rx: &mut RxState,
        ctrl: &mut HostCtrl,
        packet: RxPacket,
        acts: &mut Actions,
    ) -> (stage: RxStage)
        requires
            rx_wf(addr, old(rx)@),
            packet@.wf(),
        ensures
            took(
                probe_o4(*opts, addr, old(rx)@, *old(ctrl), packet@),
                final(rx)@,
                *final(ctrl),
                stage@,
                old(acts)@,
                final(acts)@,
            ),
            settled(*opts, addr, final(rx)@, stage@, old(acts)@, final(acts)@),
    {
        let byte: ProbedByte = ProbedByte::O4;
        if packet.len as usize > byte.offset() {
            Self::probe_byte(addr, packet, byte, acts)
        } else {
            Self::probe_o9(opts, addr, rx, ctrl, packet, acts)
        }
    }

    fn probed(
        opts: &Options,
        addr: u32,
        rx: &mut RxState,
        ctrl: &mut HostCtrl,
        packet: RxPacket,
        byte: ProbedByte,
        single: u8,
        acts: &mut Actions,
    ) -> (stage: RxStage)
        requires
            rx_wf(addr, old(rx)@),
            packet@.wf(),
            packet.len > byte.at(),
        ensures
            took(
                probed(*opts, addr, old(rx)@, *old(ctrl), packet@, byte, single),
                final(rx)@,
                *final(ctrl),
                stage@,
                old(acts)@,
                final(acts)@,
            ),
            settled(*opts, addr, final(rx)@, stage@, old(acts)@, final(acts)@),
    {
        let ghost step = probed(*opts, addr, rx@, *ctrl, packet@, byte, single);
        let probe_offset: usize = byte.offset();
        let bulk: u8 = packet.payload[probe_offset];
        let differs: bool = bulk != single;
        rx.bytes.check(byte, differs);
        if differs {
            let ring_offset: u32 = ring_move(packet.start, probe_offset as u32);
            acts.push(
                Action::Log { report: Report::ByteProbeBad { probe_offset, bulk, single, ring_offset } },
            );
        }
        let stage: RxStage = match byte {
            ProbedByte::O4 => Self::probe_o9(opts, addr, rx, ctrl, packet, acts),
            ProbedByte::O9 => Self::sampled(opts, addr, rx, ctrl, packet, acts),
        };
        assert(acts@ =~= old(acts)@ + step.acts);
        stage
    }

    fn sample(
        opts: &Options,
        addr: u32,
        rx: &mut RxState,
        ctrl: &mut HostCtrl,
        packet: RxPacket,
        acts: &mut Actions,
    ) -> (stage: RxStage)
        requires
            rx_wf(addr, old(rx)@),
            packet@.wf(),
        ensures
            took(
                sample(*opts, addr, old(rx)@, *old(ctrl), packet@),
                final(rx)@,
                *final(ctrl),
                stage@,
                old(acts)@,
                final(acts)@,
            ),
            settled(*opts, addr, final(rx)@, stage@, old(acts)@, final(acts)@),
    {
        if opts.rx_byte_probe {
            let due: bool = rx.bytes.count();
            if due {
                Self::probe_o4(opts, addr, rx, ctrl, packet, acts)
            } else {
                Self::sampled(opts, addr, rx, ctrl, packet, acts)
            }
        } else {
            Self::finish(opts, addr, rx, ctrl, packet, acts)
        }
    }

    fn searched(
        opts: &Options,
        addr: u32,
        rx: &mut RxState,
        ctrl: &mut HostCtrl,
        packet: RxPacket,
        acts: &mut Actions,
    ) -> (stage: RxStage)
        requires
            rx_wf(addr, old(rx)@),
            packet@.wf(),
        ensures
            took(
                searched(*opts, addr, old(rx)@, *old(ctrl), packet@),
                final(rx)@,
                *final(ctrl),
                stage@,
                old(acts)@,
                final(acts)@,
            ),
            settled(*opts, addr, final(rx)@, stage@, old(acts)@, final(acts)@),
    {
        let ghost step = searched(*opts, addr, rx@, *ctrl, packet@);
        rx.sentinel.summarise(acts);
        let stage: RxStage = Self::sample(opts, addr, rx, ctrl, packet, acts);
        assert(acts@ =~= old(acts)@ + step.acts);
        stage
    }

    fn search(
        opts: &Options,
        addr: u32,
        rx: &mut RxState,
        ctrl: &mut HostCtrl,
        packet: RxPacket,
        acts: &mut Actions,
    ) -> (stage: RxStage)
        requires
            rx_wf(addr, old(rx)@),
            packet@.wf(),
        ensures
            took(
                search(*opts, addr, old(rx)@, *old(ctrl), packet@),
                final(rx)@,
                *final(ctrl),
                stage@,
                old(acts)@,
                final(acts)@,
            ),
            settled(*opts, addr, final(rx)@, stage@, old(acts)@, final(acts)@),
    {
        if !opts.rx_sentinel_probe {
            return Self::sample(opts, addr, rx, ctrl, packet, acts);
        }
        let ghost step = search(*opts, addr, rx@, *ctrl, packet@);
        let valid: &[u8] = &packet.payload.as_slice()[0..packet.len as usize];
        assert(valid@ =~= packet@.valid());
        match rx.sentinel.observe(packet.kind, valid, packet.start) {
            Some(hit) => {
                acts.push(Action::Read8 { addr: addr + BTSDIO_OFFSET_HOST_READ_BUF + hit.ring_offset });
                assert(acts@ =~= old(acts)@ + step.acts);
                assert(asks(acts@) =~= asks(old(acts)@) + seq![Ask::Byte]);
                RxStage::Damaged { packet, hit }
            },
            None => Self::searched(opts, addr, rx, ctrl, packet, acts),
        }
    }

    fn damage_shown(
        opts: &Options,
        addr: u32,
        rx: &mut RxState,
        ctrl: &mut HostCtrl,
        packet: RxPacket,
        hit: SentinelHit,
        single: u8,
        acts: &mut Actions,
    ) -> (stage: RxStage)
        requires
            rx_wf(addr, old(rx)@),
            packet@.wf(),
        ensures
            took(
                damage_shown(*opts, addr, old(rx)@, *old(ctrl), packet@, hit, single),
                final(rx)@,
                *final(ctrl),
                stage@,
                old(acts)@,
                final(acts)@,
            ),
            settled(*opts, addr, final(rx)@, stage@, old(acts)@, final(acts)@),
    {
        let ghost step = damage_shown(*opts, addr, rx@, *ctrl, packet@, hit, single);
        acts.push(
            Action::Log {
                report: Report::SentinelBad {
                    acl_offset: hit.acl_offset,
                    cross_boundary: hit.cross_boundary,
                    tail_index: hit.tail_index,
                    bulk: hit.bulk,
                    single,
                    ring_offset: hit.ring_offset,
                    got_tail: hit.got_tail,
                },
            },
        );
        let stage: RxStage = Self::searched(opts, addr, rx, ctrl, packet, acts);
        assert(acts@ =~= old(acts)@ + step.acts);
        stage
    }

    fn reread(
        opts: &Options,
        addr: u32,
        rx: &mut RxState,
        ctrl: &mut HostCtrl,
        packet: RxPacket,
        acts: &mut Actions,
    ) -> (stage: RxStage)
        requires
            rx_wf(addr, old(rx)@),
            packet@.wf(),
        ensures
            took(
                reread(*opts, addr, old(rx)@, *old(ctrl), packet@),
                final(rx)@,
                *final(ctrl),
                stage@,
                old(acts)@,
                final(acts)@,
            ),
            settled(*opts, addr, final(rx)@, stage@, old(acts)@, final(acts)@),
    {
        let ghost step = reread(*opts, addr, rx@, *ctrl, packet@);
        rx.readback.summarise(acts);
        let stage: RxStage = Self::search(opts, addr, rx, ctrl, packet, acts);
        assert(acts@ =~= old(acts)@ + step.acts);
        stage
    }

    fn received(
        opts: &Options,
        addr: u32,
        rx: &mut RxState,
        ctrl: &mut HostCtrl,
        packet: RxPacket,
        acts: &mut Actions,
    ) -> (stage: RxStage)
        requires
            rx_wf(addr, old(rx)@),
            packet@.wf(),
        ensures
            took(
                received(*opts, addr, old(rx)@, *old(ctrl), packet@),
                final(rx)@,
                *final(ctrl),
                stage@,
                old(acts)@,
                final(acts)@,
            ),
            settled(*opts, addr, final(rx)@, stage@, old(acts)@, final(acts)@),
    {
        if !opts.rx_readback_probe {
            return Self::search(opts, addr, rx, ctrl, packet, acts);
        }
        let due: bool = rx.readback.count();
        if due {
            read_in_chunks(
                acts,
                addr + BTSDIO_OFFSET_HOST_READ_BUF,
                packet.start,
                packet.payload.len(),
            );
            RxStage::ReadingTwice(packet)
        } else {
            Self::reread(opts, addr, rx, ctrl, packet, acts)
        }
    }

    fn compared(
        opts: &Options,
        addr: u32,
        rx: &mut RxState,
        ctrl: &mut HostCtrl,
        packet: RxPacket,
        again: &[u8],
        acts: &mut Actions,
    ) -> (stage: RxStage)
        requires
            rx_wf(addr, old(rx)@),
            packet@.wf(),
            again@.len() == packet.payload@.len(),
        ensures
            took(
                compared(*opts, addr, old(rx)@, *old(ctrl), packet@, again@),
                final(rx)@,
                *final(ctrl),
                stage@,
                old(acts)@,
                final(acts)@,
            ),
            settled(*opts, addr, final(rx)@, stage@, old(acts)@, final(acts)@),
    {
        let ghost step = compared(*opts, addr, rx@, *ctrl, packet@, again@);
        let diff: Diff = compare(packet.payload.as_slice(), again);
        if diff.mismatches != 0 {
            rx.readback.count_difference(diff.mismatches);
            let position: u32 = ring_move(packet.start, diff.first_offset as u32);
            acts.push(Action::Read8 { addr: addr + BTSDIO_OFFSET_HOST_READ_BUF + position });
            assert(acts@ =~= old(acts)@ + step.acts);
            assert(asks(acts@) =~= asks(old(acts)@) + seq![Ask::Byte]);
            RxStage::Differing { packet, diff }
        } else {
            Self::reread(opts, addr, rx, ctrl, packet, acts)
        }
    }

    fn difference_shown(
        opts: &Options,
        addr: u32,
        rx: &mut RxState,
        ctrl: &mut HostCtrl,
        packet: RxPacket,
        diff: Diff,
        single: u8,
        acts: &mut Actions,
    ) -> (stage: RxStage)
        requires
            rx_wf(addr, old(rx)@),
            packet@.wf(),
        ensures
            took(
                difference_shown(*opts, addr, old(rx)@, *old(ctrl), packet@, diff, single),
                final(rx)@,
                *final(ctrl),
                stage@,
                old(acts)@,
                final(acts)@,
            ),
            settled(*opts, addr, final(rx)@, stage@, old(acts)@, final(acts)@),
    {
        let ghost step = difference_shown(*opts, addr, rx@, *ctrl, packet@, diff, single);
        let valid: &[u8] = &packet.payload.as_slice()[0..packet.len as usize];
        assert(valid@ =~= packet@.valid());
        let meta: PacketMeta = probe_rx_packet_meta(packet.kind, valid);
        let report: Report = Report::RxReadbackBad {
            hci_type: packet.kind,
            acl_handle: meta.acl_handle,
            acl_pb: meta.acl_pb,
            l2cap_cid: meta.l2cap_cid,
            repro_seq: meta.repro_seq,
            len: packet.len,
            rounded_len: packet.payload.len() as u32,
            offset: diff.first_offset,
            ring_offset: ring_move(packet.start, diff.first_offset as u32),
            got: diff.first_actual,
            expected: diff.first_expected,
            single,
            mismatched: diff.mismatches,
            bad: rx.readback.mismatch_packets,
            sampled: rx.readback.sampled,
        };
        acts.push(Action::Log { report });
        let stage: RxStage = Self::reread(opts, addr, rx, ctrl, packet, acts);
        assert(acts@ =~= old(acts)@ + step.acts);
        stage
    }

    fn published(
        opts: &Options,
        addr: u32,
        rx: &RxState,
        ctrl: &mut HostCtrl,
        packet: RxPacket,
        write: PointerWrite,
        replies: &Vec<Reply>,
        acts: &mut Actions,
    ) -> (stage: RxStage)
        requires
            rx_wf(addr, rx@),
            packet@.wf(),
            write.wf(),
            write.stage is Verifying,
            answered(write.awaited(), replies@),
        ensures
            took(
                published(*opts, addr, rx@, *old(ctrl), packet@, write, word_of(replies@[0])),
                rx@,
                *final(ctrl),
                stage@,
                old(acts)@,
                final(acts)@,
            ),
            settled(*opts, addr, rx@, stage@, old(acts)@, final(acts)@),
    {
        let ghost step = published(*opts, addr, rx@, *ctrl, packet@, write, word_of(replies@[0]));
        let mut write: PointerWrite = write;
        write.resume(opts, replies, acts);
        match write.stage {
            PointerStage::Done => {
                assert(asks(acts@) =~= asks(old(acts)@));
                let stage: RxStage = Self::submit(opts, addr, rx, ctrl, &packet, acts);
                assert(acts@ =~= old(acts)@ + step.acts);
                stage
            },
            PointerStage::Failed(fault) => RxStage::Failed(fault),
            _ => RxStage::Publishing { packet, write },
        }
    }

    fn signalling(
        opts: &Options,
        addr: u32,
        rx: &RxState,
        ctrl: &mut HostCtrl,
        update: HostCtrlUpdate,
        replies: &Vec<Reply>,
        acts: &mut Actions,
    ) -> (stage: RxStage)
        requires
            rx_wf(addr, rx@),
            update.wf(*opts),
            update.running(),
            answered(update.awaited(*opts), replies@),
        ensures
            took(
                signalling(*opts, addr, rx@, *old(ctrl), update, words_of(replies@)),
                rx@,
                *final(ctrl),
                stage@,
                old(acts)@,
                final(acts)@,
            ),
            settled(*opts, addr, rx@, stage@, old(acts)@, final(acts)@),
    {
        let ghost step = signalling(*opts, addr, rx@, *ctrl, update, words_of(replies@));
        let mut update: HostCtrlUpdate = update;
        update.resume(opts, ctrl, replies, acts);
        assert(!update.running() ==> asks(acts@) =~= asks(old(acts)@));
        let stage: RxStage = Self::signalled(opts, addr, rx, ctrl, update, acts);
        assert(acts@ =~= old(acts)@ + step.acts);
        stage
    }

    /// Starts to handle an interrupt: the interrupt status is looked at first.
    pub fn start(acts: &mut Actions) -> (irq: Self)
        ensures
            irq.stage is Checking,
            final(acts)@ == old(acts)@ + rx_begin(),
            asks(final(acts)@) == asks(old(acts)@) + seq![Ask::Word],
    {
        acts.push(Action::Read32 { addr: SDIOD_CORE_BASE_ADDRESS + SDIO_INT_STATUS });
        assert(acts@ =~= old(acts)@ + rx_begin());
        assert(asks(acts@) =~= asks(old(acts)@) + seq![Ask::Word]);
        HandleIrq { stage: RxStage::Checking }
    }

    /// Goes on receiving packets.
    pub fn resume(
        &mut self,
        opts: &Options,
        addr: u32,
        rx: &mut RxState,
        ctrl: &mut HostCtrl,
        replies: &Vec<Reply>,
        acts: &mut Actions,
    )
        requires
            old(self).wf(*opts),
            old(self).running(),
            rx_wf(addr, old(rx)@),
            answered(old(self).awaited(*opts, old(rx)@), replies@),
        ensures
            took(
                rx_next(*opts, addr, old(rx)@, *old(ctrl), old(self).stage@, replies@),
                final(rx)@,
                *final(ctrl),
                final(self).stage@,
                old(acts)@,
                final(acts)@,
            ),
            settled(*opts, addr, final(rx)@, final(self).stage@, old(acts)@, final(acts)@),
    {
        let mut stage: RxStage = RxStage::Done;
        std::mem::swap(&mut stage, &mut self.stage);
        self.stage = match stage {
            RxStage::Checking => Self::checked(opts, addr, rx, ctrl, replies, acts),
            RxStage::Polling => Self::pointed(opts, addr, rx, ctrl, replies, acts),
            RxStage::ReadingHeader { available } => {
                Self::framed(opts, addr, rx, ctrl, available, replies, acts)
            },
            RxStage::ReadingPayload { kind, len } => {
                proof {
                    lemma_ring_blocks(replies@, rx.b2h_read_pointer, padded_len(len as int));
                }
                let start: u32 = rx.b2h_read_pointer;
                let payload: Vec<u8> = join_blocks(replies, replies.len());
                let packet: RxPacket = RxPacket { kind, len, start, payload };
                Self::received(opts, addr, rx, ctrl, packet, acts)
            },
            RxStage::ReadingTwice(packet) => {
                proof {
                    lemma_chunks_joined_len(replies@, packet.start, packet.payload@.len() as int);
                    assert(replies@.take(replies@.len() as int) =~= replies@);
                }
                let again: Vec<u8> = join_blocks(replies, replies.len());
                Self::compared(opts, addr, rx, ctrl, packet, again.as_slice(), acts)
            },
            RxStage::Differing { packet, diff } => {
                assert(replies@[0] is Byte);
                let single: u8 = byte_in(replies, 0);
                Self::difference_shown(opts, addr, rx, ctrl, packet, diff, single, acts)
            },
            RxStage::Damaged { packet, hit } => {
                assert(replies@[0] is Byte);
                let single: u8 = byte_in(replies, 0);
                Self::damage_shown(opts, addr, rx, ctrl, packet, hit, single, acts)
            },
            RxStage::Probing { packet, byte } => {
                assert(replies@[0] is Byte);
                let single: u8 = byte_in(replies, 0);
                Self::probed(opts, addr, rx, ctrl, packet, byte, single, acts)
            },
            RxStage::Publishing { packet, write } => {
                Self::published(opts, addr, rx, ctrl, packet, write, replies, acts)
            },
            RxStage::Signalling(update) => {
                Self::signalling(opts, addr, rx, ctrl, update, replies, acts)
            },
            other => other,
        };
    }
}

/// The replies to reads out of a ring are blocks, and hold as many bytes together
/// as were asked for.
proof fn lemma_ring_blocks(replies: Seq<Reply>, p: u32, n: int)
    requires
        p < BTSDIO_FWBUF_SIZE,
        0 <= n,
        answered(ring_asks(p, n), replies),
    ensures
        joined(replies).len() == n,
        forall|i: int| 0 <= i < replies.len() ==> #[trigger] replies[i] is Block,
        replies.take(replies.len() as int) == replies,
{
    lemma_joined_len(replies, p, n);
    assert(replies.take(replies.len() as int) =~= replies);
}

} // verus!
