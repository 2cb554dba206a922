//! A packet on its way in, action by action: when it is asked for, what it is
//! taken to be, how it is acknowledged, and what the probes of it do.

use vstd::prelude::*;

use crate::action::{byte_of, word_of, words_of, ActionView, Reply};
use crate::diff::{diff_of, Diff};
use crate::host_ctrl::{
    signal_change, update_begin, update_next, HostCtrl, HostCtrlUpdate, UpdateStage,
};
use crate::options::Options;
use crate::pointer::{law_pointer_is_last_read, pointer_words, PointerStage, PointerWrite};
use crate::probe::{chunk_reads, packet_meta, ByteProbe, ProbedByte, RxReadback};
use crate::report::{Fault, Report};
use crate::ring::{joined, law_ring_distances, law_ring_read_pieces, padded_len, ring_used};
use crate::rx::{
    finish, framed, pointed, received, rx_begin, rx_next, sample, search, submit, RxPacketView,
    RxStageView, RxView,
};
use crate::sentinel::SentinelHit;
use crate::util::law_rounded_up_to_words;

verus! {

/// The reads of the position up to which the Bluetooth core has written.
pub open spec fn written_asked(opts: Options, addr: u32) -> Seq<ActionView> {
    let read = ActionView::Read32 { addr: (addr + 0x2008) as u32 };
    if opts.pointer_stable_read {
        seq![read, read]
    } else {
        seq![read]
    }
}

/// An interrupt of the Bluetooth core shows in bit 5 of the interrupt status. It is
/// cleared by writing that bit alone, and the position up to which the Bluetooth
/// core has written is asked for. Without it nothing is done.
pub proof fn law_interrupt_checked(
    opts: Options,
    addr: u32,
    rx: RxView,
    ctrl: HostCtrl,
    replies: Seq<Reply>,
)
    ensures
        rx_begin() =~= seq![ActionView::Read32 { addr: 0x1800_2020 }],
        ({
            let step = rx_next(opts, addr, rx, ctrl, RxStageView::Checking, replies);
            let status = word_of(replies[0]);
            &&& step.rx == rx
            &&& step.ctrl == ctrl
            &&& status & 0x20 == 0 ==> step.stage is Done && step.acts.len() == 0
            &&& status & 0x20 != 0 ==> {
                &&& step.stage is Polling
                &&& step.acts =~= seq![ActionView::Write32 { addr: 0x1800_2020, value: 0x20 }]
                    + written_asked(opts, addr)
            }
        }),
{
    let status = word_of(replies[0]);
    assert(status & 0x20 != 0 ==> status & 0x20 == 0x20) by (bit_vector);
}

proof fn lemma_waiting(read: u32, write: u32, waiting: int)
    requires
        read < 4096,
        0 <= waiting < 4096,
        (read + waiting) % 4096 == write % 4096,
    ensures
        ring_used(read, write) == waiting,
{
    law_ring_distances(read, write, 0);
}

proof fn lemma_pointed(
    opts: Options,
    addr: u32,
    rx: RxView,
    ctrl: HostCtrl,
    replies: Seq<Reply>,
    waiting: int,
)
    requires
        addr <= 0xffff_dff3,
        rx.pointer <= 4092,
        0 <= waiting < 4096,
        (rx.pointer + waiting) % 4096 == word_of(
            replies[if opts.pointer_stable_read { 1 } else { 0int }],
        ) % 4096,
    ensures
        ({
            let step = pointed(opts, addr, rx, ctrl, pointer_words(opts, replies, 0));
            let first = word_of(replies[0]);
            let last = word_of(replies[if opts.pointer_stable_read { 1 } else { 0int }]);
            let inside = first < 4096 && first % 4 == 0 && last < 4096 && last % 4 == 0;
            let unstable = if first == last {
                seq![]
            } else {
                seq![
                    ActionView::Log {
                        report: Report::PointerUnstable { pointer: 0x2008, first, second: last },
                    },
                ]
            };
            &&& step.rx == rx
            &&& step.ctrl == ctrl
            &&& if opts.strict_checks && !inside {
                step.stage == RxStageView::Failed(Fault::RingPointer) && step.acts.len() == 0
            } else if waiting == 0 {
                step.stage is Done && step.acts =~= unstable
            } else {
                &&& step.stage == (RxStageView::ReadingHeader { available: waiting as u32 })
                &&& step.acts =~= unstable + seq![
                    ActionView::ReadBlock { addr: (addr + 0x1000 + rx.pointer) as u32, len: 4 },
                ]
            }
        }),
{
    let words = pointer_words(opts, replies, 0);
    lemma_waiting(rx.pointer, words.last(), waiting);
    law_pointer_is_last_read(opts, addr, 0x2008, replies, 0);
    law_ring_read_pieces((addr + 0x1000) as u32, rx.pointer, 4);
}

/// A header is asked for if bytes wait in the incoming ring, which starts 4096
/// bytes into the shared buffers: so many as lead from the read pointer to the
/// position up to which the Bluetooth core has written. With strict checks that
/// must be a position in the ring.
pub proof fn law_header_asked(
    opts: Options,
    addr: u32,
    rx: RxView,
    ctrl: HostCtrl,
    replies: Seq<Reply>,
    waiting: int,
)
    requires
        addr <= 0xffff_dff3,
        rx.pointer <= 4092,
        0 <= waiting < 4096,
        (rx.pointer + waiting) % 4096 == word_of(
            replies[if opts.pointer_stable_read { 1 } else { 0int }],
        ) % 4096,
    ensures
        ({
            let step = rx_next(opts, addr, rx, ctrl, RxStageView::Polling, replies);
            let first = word_of(replies[0]);
            let last = word_of(replies[if opts.pointer_stable_read { 1 } else { 0int }]);
            let inside = first < 4096 && first % 4 == 0 && last < 4096 && last % 4 == 0;
            let unstable = if first == last {
                seq![]
            } else {
                seq![
                    ActionView::Log {
                        report: Report::PointerUnstable { pointer: 0x2008, first, second: last },
                    },
                ]
            };
            &&& step.rx == rx
            &&& step.ctrl == ctrl
            &&& if opts.strict_checks && !inside {
                step.stage == RxStageView::Failed(Fault::RingPointer) && step.acts.len() == 0
            } else if waiting == 0 {
                step.stage is Done && step.acts =~= unstable
            } else {
                &&& step.stage == (RxStageView::ReadingHeader { available: waiting as u32 })
                &&& step.acts =~= unstable + seq![
                    ActionView::ReadBlock { addr: (addr + 0x1000 + rx.pointer) as u32, len: 4 },
                ]
            }
        }),
{
    lemma_pointed(opts, addr, rx, ctrl, replies, waiting);
}

proof fn lemma_framed(
    addr: u32,
    rx: RxView,
    ctrl: HostCtrl,
    available: u32,
    header: Seq<u8>,
)
    requires
        addr <= 0xffff_dff3,
        rx.pointer < 4096,
    ensures
        ({
            let step = framed(addr, rx, ctrl, available, header);
            let len = header[0] + 256 * header[1] + 0x1_0000 * header[2];
            let n = (len + 3) / 4 * 4;
            let p = (rx.pointer + 4) % 4096;
            &&& step.ctrl == ctrl
            &&& if available < 4 + n {
                &&& step.stage is Done
                &&& step.rx == rx
                &&& step.acts =~= seq![ActionView::Log { report: Report::RxIncomplete }]
            } else {
                &&& step.rx.pointer == p
                &&& step.rx.readback == rx.readback
                &&& step.rx.sentinel == rx.sentinel
                &&& step.rx.bytes == rx.bytes
                &&& if n >= 1024 {
                    &&& step.stage == RxStageView::Failed(Fault::RxTooLong)
                    &&& step.acts =~= seq![ActionView::ReserveRx]
                } else {
                    &&& step.stage == (RxStageView::ReadingPayload {
                        kind: header[3],
                        len: len as u32,
                    })
                    &&& p + n <= 4096 ==> step.acts =~= seq![
                        ActionView::ReserveRx,
                        ActionView::ReadBlock {
                            addr: (addr + 0x1000 + p) as u32,
                            len: n as usize,
                        },
                    ]
                    &&& p + n > 4096 ==> step.acts =~= seq![
                        ActionView::ReserveRx,
                        ActionView::ReadBlock {
                            addr: (addr + 0x1000 + p) as u32,
                            len: (4096 - p) as usize,
                        },
                        ActionView::ReadBlock {
                            addr: (addr + 0x1000) as u32,
                            len: (p + n - 4096) as usize,
                        },
                    ]
                }
            }
        }),
{
    let len = header[0] + 256 * header[1] + 0x1_0000 * header[2];
    let n = (len + 3) / 4 * 4;
    let p = (rx.pointer + 4) % 4096;
    law_rounded_up_to_words(len);
    assert(padded_len(len) == n);
    if n < 1024 {
        law_ring_read_pieces((addr + 0x1000) as u32, p as u32, n);
    }
}

/// A header gives the length of the packet behind it in three bytes, lowest first,
/// and its type. The packet is asked for, in whole words, if all of it waits in the
/// ring and it fits a buffer of 1024 bytes with its type byte; room for it is
/// reserved first. If it does not all wait there, the header is left for later.
pub proof fn law_packet_asked(
    opts: Options,
    addr: u32,
    rx: RxView,
    ctrl: HostCtrl,
    available: u32,
    replies: Seq<Reply>,
)
    requires
        addr <= 0xffff_dff3,
        rx.pointer < 4096,
    ensures
        ({
            let stage = RxStageView::ReadingHeader { available };
            let step = rx_next(opts, addr, rx, ctrl, stage, replies);
            let header = joined(replies);
            let len = header[0] + 256 * header[1] + 0x1_0000 * header[2];
            let n = (len + 3) / 4 * 4;
            let p = (rx.pointer + 4) % 4096;
            &&& step.ctrl == ctrl
            &&& if available < 4 + n {
                &&& step.stage is Done
                &&& step.rx == rx
                &&& step.acts =~= seq![ActionView::Log { report: Report::RxIncomplete }]
            } else {
                &&& step.rx.pointer == p
                &&& step.rx.readback == rx.readback
                &&& step.rx.sentinel == rx.sentinel
                &&& step.rx.bytes == rx.bytes
                &&& if n >= 1024 {
                    &&& step.stage == RxStageView::Failed(Fault::RxTooLong)
                    &&& step.acts =~= seq![ActionView::ReserveRx]
                } else {
                    &&& step.stage == (RxStageView::ReadingPayload {
                        kind: header[3],
                        len: len as u32,
                    })
                    &&& p + n <= 4096 ==> step.acts =~= seq![
                        ActionView::ReserveRx,
                        ActionView::ReadBlock {
                            addr: (addr + 0x1000 + p) as u32,
                            len: n as usize,
                        },
                    ]
                    &&& p + n > 4096 ==> step.acts =~= seq![
                        ActionView::ReserveRx,
                        ActionView::ReadBlock {
                            addr: (addr + 0x1000 + p) as u32,
                            len: (4096 - p) as usize,
                        },
                        ActionView::ReadBlock {
                            addr: (addr + 0x1000) as u32,
                            len: (p + n - 4096) as usize,
                        },
                    ]
                }
            }
        }),
{
    lemma_framed(addr, rx, ctrl, available, joined(replies));
}

/// What a packet is handed over as: its type byte, and as many of the bytes that
/// were read as its header says.
pub open spec fn handed_over(packet: RxPacketView) -> ActionView {
    ActionView::SubmitRx { data: seq![packet.kind] + packet.payload.take(packet.len as int) }
}

/// A packet that was read stands where the read pointer is, with the type and the
/// length from its header. Without probes it is acknowledged at once.
pub proof fn law_packet_received(
    opts: Options,
    addr: u32,
    rx: RxView,
    ctrl: HostCtrl,
    kind: u8,
    len: u32,
    replies: Seq<Reply>,
)
    ensures
        ({
            let stage = RxStageView::ReadingPayload { kind, len };
            let packet = RxPacketView { kind, len, start: rx.pointer, payload: joined(replies) };
            let step = rx_next(opts, addr, rx, ctrl, stage, replies);
            &&& step == received(opts, addr, rx, ctrl, packet)
            &&& !opts.rx_readback_probe && !opts.rx_sentinel_probe && !opts.rx_byte_probe ==> step
                == finish(opts, addr, rx, ctrl, packet)
        }),
{
}

/// A packet is acknowledged by moving the read pointer behind it, in shared memory
/// too. Where the pointer is not read back, the packet is then handed over.
pub proof fn law_packet_acknowledged(
    opts: Options,
    addr: u32,
    rx: RxView,
    ctrl: HostCtrl,
    packet: RxPacketView,
)
    ensures
        ({
            let step = finish(opts, addr, rx, ctrl, packet);
            let q = ((rx.pointer + packet.payload.len()) % 4096) as u32;
            let pointer = (addr + 0x200c) as u32;
            let moved = RxView { pointer: q, ..rx };
            let delay = if opts.rx_out_delay {
                seq![ActionView::Delay { micros: 10 }]
            } else {
                seq![]
            };
            let write = ActionView::Write32 { addr: pointer, value: q };
            &&& opts.pointer_write_readback ==> {
                &&& step.rx == moved
                &&& step.ctrl == ctrl
                &&& step.acts =~= delay + seq![write, ActionView::Read32 { addr: pointer }]
                &&& step.stage == (RxStageView::Publishing {
                    packet,
                    write: PointerWrite {
                        addr,
                        offset: 0x200c,
                        value: q,
                        stage: PointerStage::Verifying { left: 3 },
                    },
                })
            }
            &&& !opts.pointer_write_readback ==> {
                let rest = submit(opts, addr, moved, ctrl, packet);
                &&& step.acts =~= delay + seq![write] + rest.acts
                &&& step.stage == rest.stage
                &&& step.rx == rest.rx
                &&& step.ctrl == rest.ctrl
            }
        }),
{
}

/// A read pointer that is read back is checked as any pointer is; once it has its
/// value, or was read as often as it may be, the packet is handed over.
pub proof fn law_acknowledgement_checked(
    opts: Options,
    addr: u32,
    rx: RxView,
    ctrl: HostCtrl,
    packet: RxPacketView,
    write: PointerWrite,
    replies: Seq<Reply>,
)
    requires
        write.stage is Verifying,
    ensures
        ({
            let stage = RxStageView::Publishing { packet, write };
            let step = rx_next(opts, addr, rx, ctrl, stage, replies);
            let rest = submit(opts, addr, rx, ctrl, packet);
            let got = word_of(replies[0]);
            let left = write.stage->left;
            let delay = ActionView::Delay { micros: 5 };
            let report = ActionView::Log {
                report: Report::PointerNotWritten { pointer: write.offset, value: write.value },
            };
            let read = ActionView::Read32 { addr: (write.addr + write.offset) as u32 };
            if opts.strict_checks && (got >= 4096 || got % 4 != 0) {
                &&& step.stage == RxStageView::Failed(Fault::RingPointer)
                &&& step.acts.len() == 0 && step.rx == rx && step.ctrl == ctrl
            } else if got != write.value && left > 0 {
                &&& step.stage == (RxStageView::Publishing {
                    packet,
                    write: PointerWrite {
                        stage: PointerStage::Verifying { left: (left - 1) as u32 },
                        ..write
                    },
                })
                &&& step.acts =~= seq![delay, read] && step.rx == rx && step.ctrl == ctrl
            } else {
                &&& step.stage == rest.stage && step.rx == rest.rx && step.ctrl == rest.ctrl
                &&& got == write.value ==> step.acts =~= rest.acts
                &&& got != write.value ==> step.acts =~= seq![delay, report] + rest.acts
            }
        }),
{
}

/// A packet is handed over with its type byte in front; then the interrupt is
/// raised, and the Bluetooth core is asked for more.
pub proof fn law_packet_handed_over(
    opts: Options,
    addr: u32,
    rx: RxView,
    ctrl: HostCtrl,
    packet: RxPacketView,
)
    ensures
        ({
            let step = submit(opts, addr, rx, ctrl, packet);
            let raise = update_begin(opts, ctrl, signal_change(opts));
            let delay = if opts.rx_intr_delay {
                seq![ActionView::Delay { micros: 10 }]
            } else {
                seq![]
            };
            let value = if opts.intr_set {
                ctrl.cache | 2
            } else {
                ctrl.cache ^ 2
            };
            &&& step.rx == rx
            &&& step.ctrl == raise.ctrl
            &&& step.acts.len() > 0 && step.acts[0] == handed_over(packet)
            &&& opts.rx_intr_delay ==> step.acts.len() > 1 && step.acts[1] == (ActionView::Delay {
                micros: 10,
            })
            &&& !opts.strict_checks && !opts.host_ctrl_sample ==> {
                &&& step.stage is Polling
                &&& step.ctrl == (HostCtrl { cache: value, ..ctrl })
                &&& step.acts =~= seq![handed_over(packet)] + delay + seq![
                    ActionView::Write32 { addr: 0x1800_0d6c, value },
                ] + written_asked(opts, addr)
            }
            &&& raise.stage is Done ==> step.stage is Polling && step.acts =~= seq![
                handed_over(packet),
            ] + delay + raise.acts + written_asked(opts, addr)
            &&& !(raise.stage is Done) ==> step.acts =~= seq![handed_over(packet)] + delay
                + raise.acts
            &&& raise.stage is Reading || raise.stage is Written ==> step.stage
                == RxStageView::Signalling(
                HostCtrlUpdate { change: signal_change(opts), stage: raise.stage },
            )
        }),
{
}

/// Once the interrupt has been raised, the Bluetooth core is asked for more; if it
/// could not be raised, receiving fails.
pub proof fn law_more_asked(
    opts: Options,
    addr: u32,
    rx: RxView,
    ctrl: HostCtrl,
    update: HostCtrlUpdate,
    replies: Seq<Reply>,
)
    ensures
        ({
            let step = rx_next(opts, addr, rx, ctrl, RxStageView::Signalling(update), replies);
            let raise = update_next(opts, ctrl, update, words_of(replies));
            &&& step.rx == rx
            &&& step.ctrl == raise.ctrl
            &&& match raise.stage {
                UpdateStage::Done => step.stage is Polling && step.acts =~= raise.acts
                    + written_asked(opts, addr),
                UpdateStage::Failed(fault) => step.stage == RxStageView::Failed(fault) && step.acts
                    =~= raise.acts,
                stage => step.stage == RxStageView::Signalling(HostCtrlUpdate { stage, ..update })
                    && step.acts =~= raise.acts,
            }
        }),
{
}

/// The report that starts a list of actions, if it is `wanted`, and what follows.
pub open spec fn reported(
    wanted: bool,
    report: Report,
    acts: Seq<ActionView>,
    rest: Seq<ActionView>,
) -> bool {
    if wanted {
        acts =~= seq![ActionView::Log { report }] + rest
    } else {
        acts =~= rest
    }
}

/// Where the options ask for it, each 32nd packet is read again, in small pieces,
/// before anything else is done with it. Each 2048th time the counts are reported.
pub proof fn law_packet_read_twice(
    opts: Options,
    addr: u32,
    rx: RxView,
    ctrl: HostCtrl,
    packet: RxPacketView,
)
    ensures
        ({
            let step = received(opts, addr, rx, ctrl, packet);
            let packets = (rx.readback.packets + 1) % 0x1_0000_0000;
            let due = packets % 32 == 0;
            let base = (addr + 0x1000) as u32;
            &&& !opts.rx_readback_probe ==> step == search(opts, addr, rx, ctrl, packet)
            &&& opts.rx_readback_probe && due ==> {
                &&& step.stage == RxStageView::ReadingTwice(packet)
                &&& step.acts == chunk_reads(base, packet.start, packet.payload.len() as int)
                &&& step.ctrl == ctrl
                &&& step.rx.readback.packets == packets
                &&& step.rx.readback.sampled == (rx.readback.sampled + 1) % 0x1_0000_0000
                &&& step.rx.readback.mismatch_packets == rx.readback.mismatch_packets
                &&& step.rx.readback.mismatch_bytes == rx.readback.mismatch_bytes
                &&& step.rx.pointer == rx.pointer
                &&& step.rx.sentinel == rx.sentinel
                &&& step.rx.bytes == rx.bytes
            }
            &&& opts.rx_readback_probe && !due ==> {
                let counted = RxReadback { packets: packets as u32, ..rx.readback };
                let kept = RxView { readback: counted, ..rx };
                let rest = search(opts, addr, kept, ctrl, packet);
                &&& step.acts =~= rest.acts
                &&& step.stage == rest.stage
                &&& step.rx == rest.rx
                &&& step.ctrl == rest.ctrl
            }
        }),
{
    let packets = (rx.readback.packets + 1) % 0x1_0000_0000;
    assert(packets % 32 != 0 ==> packets % 2048 != 0);
}

/// A packet that read the same twice goes on; of one that did not, the packet and
/// its bytes that differ are counted, and the first of these is read once more.
pub proof fn law_second_reading_compared(
    opts: Options,
    addr: u32,
    rx: RxView,
    ctrl: HostCtrl,
    packet: RxPacketView,
    replies: Seq<Reply>,
)
    requires
        addr <= 0xffff_dff3,
    ensures
        ({
            let stage = RxStageView::ReadingTwice(packet);
            let step = rx_next(opts, addr, rx, ctrl, stage, replies);
            let diff = diff_of(packet.payload, joined(replies));
            let rest = search(opts, addr, rx, ctrl, packet);
            let summary = Report::RxReadbackSummary {
                packets: rx.readback.packets,
                sampled: rx.readback.sampled,
                bad: rx.readback.mismatch_packets,
                bad_bytes: rx.readback.mismatch_bytes,
            };
            if diff.mismatches == 0 {
                &&& reported(rx.readback.packets % 2048 == 0, summary, step.acts, rest.acts)
                &&& step.stage == rest.stage && step.rx == rest.rx && step.ctrl == rest.ctrl
            } else {
                &&& step.stage == (RxStageView::Differing { packet, diff })
                &&& step.acts =~= seq![
                    ActionView::Read8 {
                        addr: (addr + 0x1000 + (packet.start + diff.first_offset) % 4096) as u32,
                    },
                ]
                &&& step.ctrl == ctrl
                &&& step.rx.readback.mismatch_packets == (rx.readback.mismatch_packets + 1)
                    % 0x1_0000_0000
                &&& step.rx.readback.mismatch_bytes == (rx.readback.mismatch_bytes
                    + diff.mismatches) % 0x1_0000_0000
                &&& step.rx.readback.packets == rx.readback.packets
                &&& step.rx.readback.sampled == rx.readback.sampled
                &&& step.rx.pointer == rx.pointer
                &&& step.rx.sentinel == rx.sentinel
                &&& step.rx.bytes == rx.bytes
            }
        }),
{
}

/// A packet that did not read the same twice is reported with the first byte that
/// differs, which was read three times, and goes on.
pub proof fn law_difference_reported(
    opts: Options,
    addr: u32,
    rx: RxView,
    ctrl: HostCtrl,
    packet: RxPacketView,
    diff: Diff,
    replies: Seq<Reply>,
)
    ensures
        ({
            let stage = RxStageView::Differing { packet, diff };
            let step = rx_next(opts, addr, rx, ctrl, stage, replies);
            let meta = packet_meta(packet.kind, packet.payload.take(packet.len as int));
            let rest = search(opts, addr, rx, ctrl, packet);
            let bad = Report::RxReadbackBad {
                hci_type: packet.kind,
                acl_handle: meta.acl_handle,
                acl_pb: meta.acl_pb,
                l2cap_cid: meta.l2cap_cid,
                repro_seq: meta.repro_seq,
                len: packet.len,
                rounded_len: packet.payload.len() as u32,
                offset: diff.first_offset,
                ring_offset: ((packet.start + diff.first_offset) % 4096) as u32,
                got: diff.first_actual,
                expected: diff.first_expected,
                single: byte_of(replies[0]),
                mismatched: diff.mismatches,
                bad: rx.readback.mismatch_packets,
                sampled: rx.readback.sampled,
            };
            let summary = Report::RxReadbackSummary {
                packets: rx.readback.packets,
                sampled: rx.readback.sampled,
                bad: rx.readback.mismatch_packets,
                bad_bytes: rx.readback.mismatch_bytes,
            };
            &&& step.acts.len() > 0 && step.acts[0] == (ActionView::Log { report: bad })
            &&& reported(
                rx.readback.packets % 2048 == 0,
                summary,
                step.acts.skip(1),
                rest.acts,
            )
            &&& step.stage == rest.stage && step.rx == rest.rx && step.ctrl == rest.ctrl
        }),
{
}

/// Where the options ask for it, a packet is searched for damaged sentinel blocks.
/// The first wrong byte of the first such block is read again; once it was, the
/// block is reported. Each 2048th packet the counts are reported.
pub proof fn law_packet_searched(
    opts: Options,
    addr: u32,
    rx: RxView,
    ctrl: HostCtrl,
    packet: RxPacketView,
)
    requires
        addr <= 0xffff_dff3,
    ensures
        ({
            let step = search(opts, addr, rx, ctrl, packet);
            let data = packet.payload.take(packet.len as int);
            let kept = RxView {
                sentinel: rx.sentinel.observed(packet.kind, data, packet.start),
                ..rx
            };
            let rest = sample(opts, addr, kept, ctrl, packet);
            let summary = Report::SentinelSummary {
                packets: kept.sentinel.packets,
                blocks: kept.sentinel.blocks,
                mismatches: kept.sentinel.mismatch,
            };
            &&& !opts.rx_sentinel_probe ==> step == sample(opts, addr, rx, ctrl, packet)
            &&& opts.rx_sentinel_probe ==> match rx.sentinel.found(packet.kind, data, packet.start) {
                Some(hit) => {
                    &&& step.stage == (RxStageView::Damaged { packet, hit })
                    &&& step.rx == kept
                    &&& step.ctrl == ctrl
                    &&& hit.ring_offset < 4096 ==> step.acts =~= seq![
                        ActionView::Read8 { addr: (addr + 0x1000 + hit.ring_offset) as u32 },
                    ]
                },
                None => {
                    &&& reported(
                        kept.sentinel.packets % 2048 == 0,
                        summary,
                        step.acts,
                        rest.acts,
                    )
                    &&& step.stage == rest.stage && step.rx == rest.rx && step.ctrl == rest.ctrl
                },
            }
        }),
{
}

/// A damaged sentinel block is reported with what the search found, and with its
/// first wrong byte as it read the second time.
pub proof fn law_damage_reported(
    opts: Options,
    addr: u32,
    rx: RxView,
    ctrl: HostCtrl,
    packet: RxPacketView,
    hit: SentinelHit,
    replies: Seq<Reply>,
)
    ensures
        ({
            let stage = RxStageView::Damaged { packet, hit };
            let step = rx_next(opts, addr, rx, ctrl, stage, replies);
            let rest = sample(opts, addr, rx, ctrl, packet);
            let bad = Report::SentinelBad {
                acl_offset: hit.acl_offset,
                cross_boundary: hit.cross_boundary,
                tail_index: hit.tail_index,
                bulk: hit.bulk,
                single: byte_of(replies[0]),
                ring_offset: hit.ring_offset,
                got_tail: hit.got_tail,
            };
            let summary = Report::SentinelSummary {
                packets: rx.sentinel.packets,
                blocks: rx.sentinel.blocks,
                mismatches: rx.sentinel.mismatch,
            };
            &&& step.acts.len() > 0 && step.acts[0] == (ActionView::Log { report: bad })
            &&& reported(
                rx.sentinel.packets % 2048 == 0,
                summary,
                step.acts.skip(1),
                rest.acts,
            )
            &&& step.stage == rest.stage && step.rx == rest.rx && step.ctrl == rest.ctrl
        }),
{
}

/// Where the options ask for it, the bytes at 4 and at 9 of each 64th packet are
/// read again, as far as the packet has them.
pub proof fn law_bytes_asked_again(
    opts: Options,
    addr: u32,
    rx: RxView,
    ctrl: HostCtrl,
    packet: RxPacketView,
)
    requires
        addr <= 0xffff_dff3,
    ensures
        ({
            let step = sample(opts, addr, rx, ctrl, packet);
            let packets = (rx.bytes.packets + 1) % 0x1_0000_0000;
            let counted = ByteProbe { packets: packets as u32, ..rx.bytes };
            let kept = RxView { bytes: counted, ..rx };
            let rest = finish(opts, addr, kept, ctrl, packet);
            &&& !opts.rx_byte_probe ==> step == finish(opts, addr, rx, ctrl, packet)
            &&& opts.rx_byte_probe && packets % 64 == 0 && packet.len > 4 ==> {
                &&& step.stage == (RxStageView::Probing { packet, byte: ProbedByte::O4 })
                &&& step.acts =~= seq![
                    ActionView::Read8 {
                        addr: (addr + 0x1000 + (packet.start + 4) % 4096) as u32,
                    },
                ]
                &&& step.rx == kept && step.ctrl == ctrl
            }
            &&& opts.rx_byte_probe && (packets % 64 != 0 || packet.len <= 4) ==> {
                let summary = Report::ByteProbeSummary {
                    packets: packets as u32,
                    checked_o4: rx.bytes.checked_o4,
                    mismatch_o4: rx.bytes.mismatch_o4,
                    checked_o9: rx.bytes.checked_o9,
                    mismatch_o9: rx.bytes.mismatch_o9,
                };
                &&& reported(packets % 2048 == 0, summary, step.acts, rest.acts)
                &&& step.stage == rest.stage && step.rx == rest.rx && step.ctrl == rest.ctrl
            }
        }),
{
}

/// A byte that was read again is counted, and as differing if it does; then it is
/// reported too. Behind the byte at 4 comes the one at 9, if the packet has it;
/// behind that, the packet goes on.
#[verifier::spinoff_prover]
#[verifier::rlimit(40)]
pub proof fn law_byte_compared(
    opts: Options,
    addr: u32,
    rx: RxView,
    ctrl: HostCtrl,
    packet: RxPacketView,
    byte: ProbedByte,
    replies: Seq<Reply>,
)
    requires
        addr <= 0xffff_dff3,
    ensures
        ({
            let stage = RxStageView::Probing { packet, byte };
            let step = rx_next(opts, addr, rx, ctrl, stage, replies);
            let first = byte is O4;
            let at = if first {
                4int
            } else {
                9
            };
            let bulk = packet.payload[at];
            let single = byte_of(replies[0]);
            let more = if bulk == single {
                0int
            } else {
                1
            };
            let counted = if first {
                ByteProbe {
                    checked_o4: ((rx.bytes.checked_o4 + 1) % 0x1_0000_0000) as u32,
                    mismatch_o4: ((rx.bytes.mismatch_o4 + more) % 0x1_0000_0000) as u32,
                    ..rx.bytes
                }
            } else {
                ByteProbe {
                    checked_o9: ((rx.bytes.checked_o9 + 1) % 0x1_0000_0000) as u32,
                    mismatch_o9: ((rx.bytes.mismatch_o9 + more) % 0x1_0000_0000) as u32,
                    ..rx.bytes
                }
            };
            let kept = RxView { bytes: counted, ..rx };
            let bad = Report::ByteProbeBad {
                probe_offset: at as usize,
                bulk,
                single,
                ring_offset: ((packet.start + at) % 4096) as u32,
            };
            let summary = Report::ByteProbeSummary {
                packets: counted.packets,
                checked_o4: counted.checked_o4,
                mismatch_o4: counted.mismatch_o4,
                checked_o9: counted.checked_o9,
                mismatch_o9: counted.mismatch_o9,
            };
            let rest = finish(opts, addr, kept, ctrl, packet);
            let logs = if bulk == single {
                0int
            } else {
                1
            };
            &&& bulk != single ==> step.acts.len() > 0 && step.acts[0] == (ActionView::Log {
                report: bad,
            })
            &&& if first && packet.len > 9 {
                &&& step.stage == (RxStageView::Probing { packet, byte: ProbedByte::O9 })
                &&& step.acts.skip(logs) =~= seq![
                    ActionView::Read8 {
                        addr: (addr + 0x1000 + (packet.start + 9) % 4096) as u32,
                    },
                ]
                &&& step.acts.len() == logs + 1
                &&& step.rx == kept && step.ctrl == ctrl
            } else {
                &&& reported(
                    counted.packets % 2048 == 0,
                    summary,
                    step.acts.skip(logs),
                    rest.acts,
                )
                &&& step.stage == rest.stage && step.rx == rest.rx && step.ctrl == rest.ctrl
            }
        }),
{
}

} // verus!
