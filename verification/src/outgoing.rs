//! A packet on its way out, byte by byte and action by action: where it goes in
//! shared memory, when it is refused, and what makes it known.

use vstd::arithmetic::div_mod::{lemma_mod_twice, lemma_sub_mod_noop};
use vstd::prelude::*;

use crate::action::{word_of, words_of, ActionView, Reply};
use crate::diff::diff_of;
use crate::host_ctrl::{
    update_begin, update_next, HostCtrl, HostCtrlChange, HostCtrlUpdate, UpdateStage,
};
use crate::memory::{performed_all, Memory};
use crate::options::Options;
use crate::packet::BtPacketBuf;
use crate::pointer::{
    law_pointer_is_last_read, pointer_reports, pointer_value, pointer_words, PointerStage,
    PointerWrite,
};
use crate::report::{DiagPoint, DiagReport, Fault, Report};
use crate::repro::{hci_packet_diag, ReproDiag};
use crate::ring::{
    joined, law_ring_distances, law_ring_read_pieces, padded_len, ring_free, ring_reads,
};
use crate::tx::{
    body_len, frame_len, frame_writes, law_transmit, offer, packet_frame, publish, send, transmit,
    tx_begin, tx_next, TxStage, TxState,
};
use crate::util::law_rounded_up_to_words;

verus! {

/// The length of a packet behind its type byte, filled up to whole words.
pub open spec fn words_len(packet: BtPacketBuf) -> int {
    (packet.len - 1 + 3) / 4 * 4
}

proof fn lemma_words_len(packet: BtPacketBuf)
    requires
        1 <= packet.len,
    ensures
        frame_len(packet) == 4 + words_len(packet),
        1 + padded_len(body_len(packet)) > 1024 <==> packet.len > 1021,
{
    law_rounded_up_to_words(packet.len - 1);
    if packet.len <= 1021 {
        assert((packet.len - 1 + 3) / 4 <= 255);
    } else {
        assert((packet.len - 1 + 3) / 4 >= 256);
    }
}

/// The byte that the frame of a packet has at `i`: the length in three bytes, the
/// type, and the packet.
pub open spec fn frame_byte(packet: BtPacketBuf, i: int) -> int {
    let n = packet.len - 1;
    if i == 0 {
        n % 256
    } else if i == 1 {
        n / 256 % 256
    } else if i == 2 {
        n / 0x1_0000 % 256
    } else if i == 3 {
        packet.buf@[0] as int
    } else {
        packet.buf@[i - 3] as int
    }
}

/// The frame of a packet stands in the outgoing ring, at the start of the shared
/// buffers, from the write pointer on, and around its end. The write pointer moves
/// behind it, and its value is written to shared memory, lowest byte first, unless
/// the frame is read back first. No other byte of memory changes.
#[verifier::spinoff_prover]
#[verifier::rlimit(40)]
pub proof fn law_frame_on_the_ring(
    mem: Memory,
    opts: Options,
    addr: u32,
    tx: TxState,
    ctrl: HostCtrl,
    packet: BtPacketBuf,
    i: int,
    a: int,
)
    requires
        addr <= 0xffff_dff3,
        tx.h2b_write_pointer < 4096,
        tx.h2b_write_pointer % 4 == 0,
        1 <= packet.len <= 1021,
    ensures
        ({
            let step = transmit(opts, addr, tx, ctrl, packet);
            let after = performed_all(mem, step.acts);
            let p = tx.h2b_write_pointer as int;
            let q = step.tx.h2b_write_pointer as int;
            let n = 4 + words_len(packet);
            &&& q == (p + n) % 4096
            &&& 0 <= i < n ==> after(addr + (p + i) % 4096) == frame_byte(packet, i)
            &&& 0 <= i < 4096 - n ==> after(addr + (p + n + i) % 4096) == mem(
                addr + (p + n + i) % 4096,
            )
            &&& step.stage is ReadingBack ==> (a < addr || a >= addr + 4096 ==> after(a) == mem(a))
            &&& !(step.stage is ReadingBack) ==> {
                &&& after(addr + 0x2000) + 256 * after(addr + 0x2001) == q
                &&& after(addr + 0x2002) == 0 && after(addr + 0x2003) == 0
                &&& a < addr || (addr + 4096 <= a < addr + 0x2000) || a >= addr + 0x2004
                    ==> after(a) == mem(a)
            }
        }),
{
    let step = transmit(opts, addr, tx, ctrl, packet);
    let p = tx.h2b_write_pointer as int;
    let n = 4 + words_len(packet);
    law_transmit(mem, opts, addr, tx, ctrl, packet);
    lemma_words_len(packet);
    assert(frame_len(packet) == n);
    assert(((p + i) % 4096 - p) % 4096 == i % 4096) by {
        lemma_sub_mod_noop(p + i, p, 4096);
        lemma_mod_twice(p + i, 4096);
    }
    let j = n + i;
    assert(((p + j) % 4096 - p) % 4096 == j % 4096) by {
        lemma_sub_mod_noop(p + j, p, 4096);
        lemma_mod_twice(p + j, 4096);
    }
}

/// The actions that ask for the host control register, before the interrupt.
pub open spec fn register_asked(opts: Options) -> Seq<ActionView> {
    let read = ActionView::Read32 { addr: 0x1800_0d6c };
    if opts.tx_intr_delay {
        seq![ActionView::Delay { micros: 10 }, read]
    } else {
        seq![read]
    }
}

/// The actions that make a frame known which ends before position `q`: its end is
/// written to shared memory, and read back or followed by the interrupt.
pub open spec fn made_known(opts: Options, addr: u32, q: u32) -> Seq<ActionView> {
    let pointer = (addr + 0x2000) as u32;
    (if opts.tx_publish_delay {
        seq![ActionView::Delay { micros: 10 }]
    } else {
        seq![]
    }) + seq![ActionView::Write32 { addr: pointer, value: q }] + (if opts.pointer_write_readback {
        seq![ActionView::Read32 { addr: pointer }]
    } else {
        register_asked(opts)
    })
}

/// Whether sending is at the place where a frame is made known.
pub open spec fn is_made_known(opts: Options, addr: u32, q: u32, stage: TxStage) -> bool {
    if opts.pointer_write_readback {
        stage == TxStage::Publishing(
            PointerWrite {
                addr,
                offset: 0x2000,
                value: q,
                stage: PointerStage::Verifying { left: 3 },
            },
        )
    } else {
        stage is Signalling
    }
}

proof fn lemma_publish(opts: Options, addr: u32, tx: TxState, ctrl: HostCtrl)
    ensures
        ({
            let step = publish(opts, addr, tx, ctrl);
            &&& step.acts =~= made_known(opts, addr, tx.h2b_write_pointer)
            &&& is_made_known(opts, addr, tx.h2b_write_pointer, step.stage)
            &&& step.tx == tx
            &&& step.ctrl == ctrl
        }),
{
}

/// The frame of a packet is written before anything else is done. It is read back
/// only if it is a test packet and the options ask for it; otherwise it is made
/// known at once.
pub proof fn law_frame_comes_first(
    opts: Options,
    addr: u32,
    tx: TxState,
    ctrl: HostCtrl,
    packet: BtPacketBuf,
)
    requires
        addr <= 0xffff_dff3,
        tx.h2b_write_pointer < 4096,
        1 <= packet.len <= 1021,
    ensures
        ({
            let step = transmit(opts, addr, tx, ctrl, packet);
            let p = tx.h2b_write_pointer;
            let q = step.tx.h2b_write_pointer;
            let n = 4 + words_len(packet);
            let diag = hci_packet_diag(packet@);
            let again = opts.tx_repro_diag && opts.tx_readback_probe && diag is Some;
            let behind = if !again {
                made_known(opts, addr, q)
            } else if p + n <= 4096 {
                seq![ActionView::ReadBlock { addr: (addr + p) as u32, len: n as usize }]
            } else {
                seq![
                    ActionView::ReadBlock { addr: (addr + p) as u32, len: (4096 - p) as usize },
                    ActionView::ReadBlock { addr, len: (p + n - 4096) as usize },
                ]
            };
            let k = step.acts.len() - behind.len();
            &&& 2 <= k <= 3
            &&& forall|i: int| 0 <= i < k ==> (#[trigger] step.acts[i]) is WriteBlock
            &&& step.acts.skip(k) =~= behind
            &&& again ==> step.stage == (TxStage::ReadingBack { start: p, packet, diag: diag->Some_0 })
            &&& !again ==> is_made_known(opts, addr, q, step.stage)
            &&& step.ctrl == ctrl
            &&& step.tx == (TxState { h2b_write_pointer: q, ..tx })
        }),
{
    let step = transmit(opts, addr, tx, ctrl, packet);
    let writes = frame_writes(addr, tx, packet);
    lemma_publish(opts, addr, step.tx, ctrl);
    lemma_words_len(packet);
    law_ring_read_pieces(addr, tx.h2b_write_pointer, frame_len(packet));
    assert(step.acts.skip(writes.len() as int) =~= if step.stage is ReadingBack {
        ring_reads(addr, tx.h2b_write_pointer, frame_len(packet))
    } else {
        made_known(opts, addr, step.tx.h2b_write_pointer)
    });
}

/// A packet that was taken is inspected where the options ask for it: a test packet
/// is counted, as damaged if it is, and reported if it is damaged or the 1024th. A
/// packet without a type byte cannot be sent; for any other, the position up to
/// which the Bluetooth core has read is asked for.
pub proof fn law_packet_is_taken(
    opts: Options,
    addr: u32,
    tx: TxState,
    ctrl: HostCtrl,
    replies: Seq<Reply>,
)
    requires
        addr <= 0xffff_dff3,
    ensures
        ({
            let step = tx_next(opts, addr, tx, ctrl, TxStage::Fetching, replies);
            let packet = replies[0]->Packet_0;
            let found = if opts.tx_repro_diag {
                hci_packet_diag(packet@)
            } else {
                None
            };
            let read = ActionView::Read32 { addr: (addr + 0x2004) as u32 };
            let reads = if packet.len == 0 {
                0int
            } else if opts.pointer_stable_read {
                2
            } else {
                1
            };
            let logs = step.acts.len() - reads;
            &&& forall|i: int| logs <= i < step.acts.len() ==> #[trigger] step.acts[i] == read
            &&& step.ctrl == ctrl
            &&& step.tx.h2b_write_pointer == tx.h2b_write_pointer
            &&& step.tx.readback == tx.readback
            &&& packet.len == 0 ==> step.stage == TxStage::Failed(Fault::TxEmpty)
            &&& packet.len != 0 ==> step.stage == (TxStage::Offering { packet, found })
            &&& match found {
                Some(diag) => {
                    let checked = (tx.diag.checked + 1) % 0x1_0000_0000;
                    &&& step.tx.diag.checked == checked
                    &&& diag.mismatches == 0 ==> step.tx.diag.bad == tx.diag.bad
                    &&& diag.mismatches != 0 ==> step.tx.diag.bad == (tx.diag.bad + 1)
                        % 0x1_0000_0000
                    &&& diag.mismatches != 0 ==> logs == 1 && step.acts[0] == (ActionView::Log {
                        report: Report::TxDiag {
                            at: DiagPoint::Runner,
                            diag: DiagReport::Bad {
                                seq: diag.seq,
                                offset: diag.first_offset,
                                got: diag.first_actual,
                                expected: diag.first_expected,
                                mismatches: diag.mismatches,
                                bad: step.tx.diag.bad,
                                checked: step.tx.diag.checked,
                            },
                        },
                    })
                    &&& diag.mismatches == 0 && checked % 1024 == 0 ==> logs == 1 && step.acts[0]
                        == (ActionView::Log {
                        report: Report::TxDiag {
                            at: DiagPoint::Runner,
                            diag: DiagReport::Summary {
                                checked: step.tx.diag.checked,
                                bad: step.tx.diag.bad,
                            },
                        },
                    })
                    &&& diag.mismatches == 0 && checked % 1024 != 0 ==> logs == 0
                },
                None => step.tx.diag == tx.diag && logs == 0,
            }
        }),
{
}

proof fn lemma_room(read: u32, write: u32, room: int)
    requires
        write < 4096,
        0 <= room < 4096,
        (write + room + 4) % 4096 == read % 4096,
    ensures
        ring_free(read, write) == room,
{
    law_ring_distances(read, write, 0);
}

proof fn lemma_offered(
    opts: Options,
    addr: u32,
    tx: TxState,
    ctrl: HostCtrl,
    packet: BtPacketBuf,
    read: u32,
)
    requires
        1 <= packet.len,
    ensures
        ({
            let step = offer(opts, addr, tx, ctrl, packet, read);
            let room = ring_free(read, tx.h2b_write_pointer);
            let needed = 4 + words_len(packet);
            if room < needed {
                &&& step.stage is Done
                &&& step.tx == tx
                &&& step.acts == seq![
                    ActionView::Log {
                        report: Report::TxQueueFull { len: needed as u32, available: room as u32 },
                    },
                    ActionView::Yield,
                ]
            } else if packet.len > 1021 {
                &&& step.stage == TxStage::Failed(Fault::TxTooLong)
                &&& step.tx == tx && step.acts == Seq::<ActionView>::empty()
            } else {
                step == transmit(opts, addr, tx, ctrl, packet)
            }
        }),
{
    lemma_words_len(packet);
}

proof fn lemma_sent(
    opts: Options,
    addr: u32,
    tx: TxState,
    ctrl: HostCtrl,
    packet: BtPacketBuf,
    words: Seq<u32>,
)
    ensures
        ({
            let step = send(opts, addr, tx, ctrl, packet, words);
            match pointer_value(opts, words) {
                Ok(read) => step == offer(opts, addr, tx, ctrl, packet, read).after(
                    pointer_reports(0x2004, words),
                ),
                Err(fault) => step.stage == TxStage::Failed(fault) && step.tx == tx && step.acts
                    == Seq::<ActionView>::empty(),
            }
        }),
{
}

/// A packet goes into the ring if there is room for it: so many bytes as lead from
/// the write pointer to one word before the position up to which the Bluetooth core
/// has read. Without room it is reported and left where it is. A packet whose last
/// word would reach past its buffer cannot be sent.
#[verifier::spinoff_prover]
pub proof fn law_room_for_packet(
    opts: Options,
    addr: u32,
    tx: TxState,
    ctrl: HostCtrl,
    packet: BtPacketBuf,
    found: Option<ReproDiag>,
    replies: Seq<Reply>,
    room: int,
)
    requires
        addr <= 0xffff_dff3,
        tx.h2b_write_pointer < 4096,
        1 <= packet.len,
        0 <= room < 4096,
        (tx.h2b_write_pointer + room + 4) % 4096 == word_of(
            replies[if opts.pointer_stable_read { 1 } else { 0int }],
        ) % 4096,
    ensures
        ({
            let step = tx_next(opts, addr, tx, ctrl, TxStage::Offering { packet, found }, replies);
            let first = word_of(replies[0]);
            let read = word_of(replies[if opts.pointer_stable_read { 1 } else { 0int }]);
            let inside = first < 4096 && first % 4 == 0 && read < 4096 && read % 4 == 0;
            let unstable = if first == read {
                seq![]
            } else {
                seq![
                    ActionView::Log {
                        report: Report::PointerUnstable { pointer: 0x2004, first, second: read },
                    },
                ]
            };
            let needed = 4 + words_len(packet);
            if opts.strict_checks && !inside {
                &&& step.stage == TxStage::Failed(Fault::RingPointer)
                &&& step.tx == tx && step.acts.len() == 0
            } else if room < needed {
                &&& step.stage is Done
                &&& step.tx == tx
                &&& step.acts =~= unstable + seq![
                    ActionView::Log {
                        report: Report::TxQueueFull { len: needed as u32, available: room as u32 },
                    },
                    ActionView::Yield,
                ]
            } else if packet.len > 1021 {
                &&& step.stage == TxStage::Failed(Fault::TxTooLong)
                &&& step.tx == tx && step.acts =~= unstable
            } else {
                &&& step.acts =~= unstable + transmit(opts, addr, tx, ctrl, packet).acts
                &&& step.stage == transmit(opts, addr, tx, ctrl, packet).stage
                &&& step.tx == transmit(opts, addr, tx, ctrl, packet).tx
            }
        }),
{
    let words = pointer_words(opts, replies, 0);
    let read = words.last();
    law_pointer_is_last_read(opts, addr, 0x2004, replies, 0);
    lemma_room(read, tx.h2b_write_pointer, room);
    lemma_offered(opts, addr, tx, ctrl, packet, read);
    lemma_sent(opts, addr, tx, ctrl, packet, words);
    let sent = send(opts, addr, tx, ctrl, packet, words);
    assert(tx_next(opts, addr, tx, ctrl, TxStage::Offering { packet, found }, replies) == sent);
}

/// A frame that was read back is compared byte by byte, counted, as damaged if it
/// is, and reported if it is damaged or the 1024th. Either way it is made known.
pub proof fn law_frame_read_back(
    opts: Options,
    addr: u32,
    tx: TxState,
    ctrl: HostCtrl,
    start: u32,
    packet: BtPacketBuf,
    diag: ReproDiag,
    replies: Seq<Reply>,
)
    requires
        1 <= packet.len <= 1021,
    ensures
        ({
            let stage = TxStage::ReadingBack { start, packet, diag };
            let step = tx_next(opts, addr, tx, ctrl, stage, replies);
            let frame = Seq::new(
                (4 + words_len(packet)) as nat,
                |i: int| frame_byte(packet, i) as u8,
            );
            let diff = diff_of(frame, joined(replies));
            let damaged = diff.mismatches != 0;
            let checked = (tx.readback.checked + 1) % 0x1_0000_0000;
            let known = made_known(opts, addr, tx.h2b_write_pointer);
            let bad = Report::TxReadbackBad {
                seq: diag.seq,
                offset: diff.first_offset,
                payload_offset: if diff.first_offset >= 4 {
                    (diff.first_offset - 4) as u16
                } else {
                    0
                },
                in_header: diff.first_offset <= 3,
                got: diff.first_actual,
                expected: diff.first_expected,
                mismatched: diff.mismatches,
                bad: step.tx.readback.bad,
                checked: step.tx.readback.checked,
            };
            let summary = Report::TxReadbackSummary {
                checked: step.tx.readback.checked,
                bad: step.tx.readback.bad,
            };
            &&& is_made_known(opts, addr, tx.h2b_write_pointer, step.stage)
            &&& step.tx.h2b_write_pointer == tx.h2b_write_pointer
            &&& step.tx.diag == tx.diag
            &&& step.ctrl == ctrl
            &&& step.tx.readback.checked == checked
            &&& damaged ==> step.tx.readback.bad == (tx.readback.bad + 1) % 0x1_0000_0000
            &&& !damaged ==> step.tx.readback.bad == tx.readback.bad
            &&& damaged ==> step.acts =~= seq![ActionView::Log { report: bad }] + known
            &&& !damaged && checked % 1024 == 0 ==> step.acts =~= seq![
                ActionView::Log { report: summary },
            ] + known
            &&& !damaged && checked % 1024 != 0 ==> step.acts =~= known
        }),
{
    let frame = Seq::new((4 + words_len(packet)) as nat, |i: int| frame_byte(packet, i) as u8);
    lemma_words_len(packet);
    assert(packet_frame(packet) =~= frame);
    let counted = tx.readback.counted(diff_of(frame, joined(replies)).mismatches != 0);
    lemma_publish(opts, addr, TxState { readback: counted, ..tx }, ctrl);
}

/// Once the write pointer has its value, or was read back as often as it may be,
/// the host control register is asked for; its data-valid bit is then inverted, and
/// the packet leaves the queue.
pub proof fn law_interrupt_follows(
    opts: Options,
    addr: u32,
    tx: TxState,
    ctrl: HostCtrl,
    write: PointerWrite,
    replies: Seq<Reply>,
)
    requires
        write.stage is Verifying,
    ensures
        ({
            let step = tx_next(opts, addr, tx, ctrl, TxStage::Publishing(write), replies);
            let got = word_of(replies[0]);
            let fails = opts.strict_checks && (got >= 4096 || got % 4 != 0);
            let left = write.stage->left;
            let delay = ActionView::Delay { micros: 5 };
            let report = ActionView::Log {
                report: Report::PointerNotWritten { pointer: write.offset, value: write.value },
            };
            let read = ActionView::Read32 { addr: (write.addr + write.offset) as u32 };
            &&& step.tx == tx
            &&& fails ==> step.stage == TxStage::Failed(Fault::RingPointer) && step.acts.len() == 0
            &&& !fails && got == write.value ==> {
                step.stage is Signalling && step.acts =~= register_asked(opts)
            }
            &&& !fails && got != write.value && left == 0 ==> {
                step.stage is Signalling && step.acts =~= seq![delay, report] + register_asked(opts)
            }
            &&& !fails && got != write.value && left > 0 ==> {
                &&& step.stage == TxStage::Publishing(
                    PointerWrite {
                        stage: PointerStage::Verifying { left: (left - 1) as u32 },
                        ..write
                    },
                )
                &&& step.acts =~= seq![delay, read]
            }
        }),
        ({
            let step = tx_next(opts, addr, tx, ctrl, TxStage::Signalling, replies);
            let hw = word_of(replies[0]);
            &&& step.stage is Done
            &&& step.tx == tx
            &&& step.ctrl == ctrl
            &&& step.acts =~= seq![
                ActionView::Write32 { addr: 0x1800_0d6c, value: hw ^ 2 },
                ActionView::ReleaseTx,
            ]
        }),
{
}

/// Sending starts by keeping the Bluetooth core awake: bit 17 of the host control
/// register is set, in the cache too, before the status register is asked for.
pub proof fn law_core_is_woken(opts: Options, tx: TxState, ctrl: HostCtrl)
    ensures
        ({
            let begun = tx_begin(opts, tx, ctrl);
            let value = ctrl.cache | 0x0002_0000;
            &&& begun.tx == tx
            &&& !opts.strict_checks && !opts.host_ctrl_sample ==> {
                &&& begun.stage is Awaiting
                &&& begun.ctrl == (HostCtrl { cache: value, ..ctrl })
                &&& begun.acts =~= seq![
                    ActionView::Write32 { addr: 0x1800_0d6c, value },
                    ActionView::Read32 { addr: 0x1800_0c7c },
                ]
            }
            &&& begun.stage is Awaiting ==> begun.ctrl.cache == value && begun.acts.len() > 0
                && begun.acts[0] == (ActionView::Write32 { addr: 0x1800_0d6c, value })
        }),
        ({
            let begun = tx_begin(opts, tx, ctrl);
            let wake = HostCtrlChange::SetAwake(true);
            let change = update_begin(opts, ctrl, wake);
            &&& begun.ctrl == change.ctrl
            &&& match change.stage {
                UpdateStage::Done => begun.stage is Awaiting && begun.acts =~= change.acts.push(
                    ActionView::Read32 { addr: 0x1800_0c7c },
                ),
                UpdateStage::Failed(fault) => begun.stage == TxStage::Failed(fault) && begun.acts
                    =~= change.acts,
                stage => begun.stage == TxStage::Waking(HostCtrlUpdate { change: wake, stage })
                    && begun.acts =~= change.acts,
            }
        }),
{
}

/// Once the register has the bit, its status is asked for; a change that failed
/// ends the sending.
pub proof fn law_waking_goes_on(
    opts: Options,
    addr: u32,
    tx: TxState,
    ctrl: HostCtrl,
    update: HostCtrlUpdate,
    replies: Seq<Reply>,
)
    ensures
        ({
            let step = tx_next(opts, addr, tx, ctrl, TxStage::Waking(update), replies);
            let change = update_next(opts, ctrl, update, words_of(replies));
            &&& step.tx == tx
            &&& step.ctrl == change.ctrl
            &&& match change.stage {
                UpdateStage::Done => step.stage is Awaiting && step.acts =~= change.acts.push(
                    ActionView::Read32 { addr: 0x1800_0c7c },
                ),
                UpdateStage::Failed(fault) => step.stage == TxStage::Failed(fault) && step.acts
                    =~= change.acts,
                stage => step.stage == TxStage::Waking(HostCtrlUpdate { stage, ..update })
                    && step.acts =~= change.acts,
            }
        }),
{
}

} // verus!
