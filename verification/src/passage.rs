//! The way of a packet from its header to the host: which steps it takes, what is
//! counted on the way, and that no step but the last writes anything or hands
//! anything over.

use vstd::prelude::*;

use crate::action::{logged, optional, ActionView};
use crate::consts::BTSDIO_FWBUF_SIZE;
use crate::diff::{diff_of, Diff};
use crate::host_ctrl::{HostCtrl, UpdateStage};
use crate::options::Options;
use crate::pointer::PointerStage;
use crate::probe::{
    chunk_len, chunk_reads, ByteProbe, ProbedByte, RxReadback, BYTE_PROBE_EVERY, READBACK_EVERY,
};
use crate::report::Report;
use crate::ring::ring_moved;
use crate::rx::{
    compared, damage_shown, difference_report, difference_shown, finish, probe_o4, probe_o9, probed,
    received, reread, rx_base, sample, sampled, search, searched, RxPacketView, RxStageView, RxStep,
    RxView,
};
use crate::sentinel::SentinelHit;

verus! {

/// Whether no action writes anything or hands anything over.
pub open spec fn calm(acts: Seq<ActionView>) -> bool {
    forall|i: int|
        0 <= i < acts.len() ==> !(#[trigger] acts[i] is Write32 || acts[i] is WriteBlock
            || acts[i] is SubmitRx)
}

/// The packet in hand, if all of one has been read and its room in the ring has
/// not been given back.
pub open spec fn held(stage: RxStageView) -> Option<RxPacketView> {
    match stage {
        RxStageView::ReadingTwice(packet) => Some(packet),
        RxStageView::Differing { packet, diff } => Some(packet),
        RxStageView::Damaged { packet, hit } => Some(packet),
        RxStageView::Probing { packet, byte } => Some(packet),
        _ => None,
    }
}

/// How many rounds it takes at most until there is nothing left to do, if no packet
/// waits in the ring behind the one that is being dealt with.
pub open spec fn pace(stage: RxStageView) -> int {
    match stage {
        RxStageView::Checking => 3,
        RxStageView::Polling => 2,
        RxStageView::ReadingHeader { available } => 1,
        RxStageView::ReadingPayload { kind, len } => 15,
        RxStageView::ReadingTwice(packet) => 14,
        RxStageView::Differing { packet, diff } => 13,
        RxStageView::Damaged { packet, hit } => 12,
        RxStageView::Probing { packet, byte } => if byte is O4 {
            11
        } else {
            10
        },
        RxStageView::Publishing { packet, write } => match write.stage {
            PointerStage::Verifying { left } => 6 + left,
            _ => 6,
        },
        RxStageView::Signalling(update) => match update.stage {
            UpdateStage::Reading { sample } => 5,
            UpdateStage::Written { sample } => if sample {
                4
            } else {
                3
            },
            _ => 3,
        },
        _ => 0,
    }
}

/// Whether one packet in so many of `n` has been read twice.
pub open spec fn readback_at(opts: Options, n: int, readback: RxReadback) -> bool {
    opts.rx_readback_probe ==> {
        &&& readback.packets == n
        &&& readback.sampled == n / READBACK_EVERY as int
        &&& readback.mismatch_packets <= readback.sampled
    }
}

/// Whether no more than one packet in so many of `n` has had single bytes of it
/// read again.
pub open spec fn bytes_at(opts: Options, n: int, bytes: ByteProbe) -> bool {
    opts.rx_byte_probe ==> {
        &&& bytes.packets == n
        &&& bytes.checked_o4 <= n / BYTE_PROBE_EVERY as int
        &&& bytes.checked_o9 <= bytes.checked_o4
        &&& bytes.mismatch_o4 <= bytes.checked_o4
        &&& bytes.mismatch_o9 <= bytes.checked_o9
    }
}

/// Whether the probes have counted `n` packets.
pub open spec fn tallied(opts: Options, n: int, rx: RxView) -> bool {
    readback_at(opts, n, rx.readback) && bytes_at(opts, n, rx.bytes)
}

/// Whether the probes have counted the `n` packets handed over and the one in
/// hand, as far as it has got, unless that is too many to count.
pub open spec fn tally(opts: Options, n: int, rx: RxView, stage: RxStageView) -> bool {
    match stage {
        RxStageView::ReadingTwice(packet) => n < u32::MAX ==> {
            &&& readback_at(opts, n + 1, rx.readback)
            &&& opts.rx_readback_probe ==> rx.readback.mismatch_packets < rx.readback.sampled
            &&& bytes_at(opts, n, rx.bytes)
        },
        RxStageView::Differing { packet, diff } => n < u32::MAX ==> {
            readback_at(opts, n + 1, rx.readback) && bytes_at(opts, n, rx.bytes)
        },
        RxStageView::Damaged { packet, hit } => n < u32::MAX ==> {
            readback_at(opts, n + 1, rx.readback) && bytes_at(opts, n, rx.bytes)
        },
        RxStageView::Probing { packet, byte } => n < u32::MAX ==> {
            &&& tallied(opts, n + 1, rx)
            &&& opts.rx_byte_probe ==> match byte {
                ProbedByte::O4 => rx.bytes.checked_o4 < (n + 1) / BYTE_PROBE_EVERY as int,
                ProbedByte::O9 => rx.bytes.checked_o9 < rx.bytes.checked_o4,
            }
        },
        RxStageView::Publishing { packet, write } => n < u32::MAX ==> tallied(opts, n + 1, rx),
        RxStageView::Failed(fault) => true,
        _ => n <= u32::MAX ==> tallied(opts, n, rx),
    }
}

/// Whether a step either keeps a packet in hand and gets it on, or gives its room
/// in the ring back after nothing but `logs`; and counts it either way.
pub open spec fn onward(
    opts: Options,
    addr: u32,
    n: int,
    pointer: u32,
    ctrl: HostCtrl,
    packet: RxPacketView,
    before: int,
    step: RxStep,
    kept: RxView,
    logs: Seq<ActionView>,
) -> bool {
    let end = finish(opts, addr, kept, ctrl, packet);
    ||| {
        &&& held(step.stage) == Some(packet)
        &&& step.rx.pointer == pointer
        &&& step.ctrl == ctrl
        &&& calm(step.acts)
        &&& pace(step.stage) < before
        &&& tally(opts, n, step.rx, step.stage)
    }
    ||| {
        &&& kept.pointer == pointer
        &&& calm(logs)
        &&& n < u32::MAX ==> tallied(opts, n + 1, kept)
        &&& step.rx == end.rx
        &&& step.ctrl == end.ctrl
        &&& step.stage == end.stage
        &&& step.acts == logs + end.acts
    }
}

proof fn lemma_onward_after(
    opts: Options,
    addr: u32,
    n: int,
    pointer: u32,
    ctrl: HostCtrl,
    packet: RxPacketView,
    before: int,
    step: RxStep,
    kept: RxView,
    logs: Seq<ActionView>,
    first: Seq<ActionView>,
)
    requires
        onward(opts, addr, n, pointer, ctrl, packet, before, step, kept, logs),
        calm(first),
    ensures
        onward(opts, addr, n, pointer, ctrl, packet, before, step.after(first), kept, first + logs),
{
    let end = finish(opts, addr, kept, ctrl, packet);
    assert(first + (logs + end.acts) =~= first + logs + end.acts);
}

proof fn lemma_chunks_calm(base: u32, p: u32, n: int)
    ensures
        calm(chunk_reads(base, p, n)),
    decreases n,
{
    if n > 0 && p < BTSDIO_FWBUF_SIZE {
        let k = chunk_len(p, n);
        lemma_chunks_calm(base, ring_moved(p, k), n - k);
    }
}

proof fn lemma_sampled(
    opts: Options,
    addr: u32,
    n: int,
    rx: RxView,
    ctrl: HostCtrl,
    packet: RxPacketView,
    before: int,
) -> (way: (RxView, Seq<ActionView>))
    requires
        n < u32::MAX ==> tallied(opts, n + 1, rx),
    ensures
        onward(
            opts,
            addr,
            n,
            rx.pointer,
            ctrl,
            packet,
            before,
            sampled(opts, addr, rx, ctrl, packet),
            way.0,
            way.1,
        ),
{
    (rx, logged(rx.bytes.summary()))
}

proof fn lemma_probe_o9(
    opts: Options,
    addr: u32,
    n: int,
    rx: RxView,
    ctrl: HostCtrl,
    packet: RxPacketView,
    before: int,
) -> (way: (RxView, Seq<ActionView>))
    requires
        before > 10,
        n < u32::MAX ==> tallied(opts, n + 1, rx),
        opts.rx_byte_probe && n < u32::MAX && packet.len > ProbedByte::O9.at()
            ==> rx.bytes.checked_o9 < rx.bytes.checked_o4,
    ensures
        onward(
            opts,
            addr,
            n,
            rx.pointer,
            ctrl,
            packet,
            before,
            probe_o9(opts, addr, rx, ctrl, packet),
            way.0,
            way.1,
        ),
{
    lemma_sampled(opts, addr, n, rx, ctrl, packet, before)
}

proof fn lemma_probe_o4(
    opts: Options,
    addr: u32,
    n: int,
    rx: RxView,
    ctrl: HostCtrl,
    packet: RxPacketView,
    before: int,
) -> (way: (RxView, Seq<ActionView>))
    requires
        before > 11,
        n < u32::MAX ==> tallied(opts, n + 1, rx),
        opts.rx_byte_probe && n < u32::MAX ==> rx.bytes.checked_o4 < (n + 1)
            / BYTE_PROBE_EVERY as int,
    ensures
        onward(
            opts,
            addr,
            n,
            rx.pointer,
            ctrl,
            packet,
            before,
            probe_o4(opts, addr, rx, ctrl, packet),
            way.0,
            way.1,
        ),
{
    if packet.len > ProbedByte::O4.at() {
        (rx, seq![])
    } else {
        lemma_probe_o9(opts, addr, n, rx, ctrl, packet, before)
    }
}

/// A byte that was read again is counted, and the packet goes on.
pub proof fn lemma_probed_onward(
    opts: Options,
    addr: u32,
    n: int,
    rx: RxView,
    ctrl: HostCtrl,
    packet: RxPacketView,
    byte: ProbedByte,
    single: u8,
) -> (way: (RxView, Seq<ActionView>))
    requires
        0 <= n,
        tally(opts, n, rx, RxStageView::Probing { packet, byte }),
    ensures
        onward(
            opts,
            addr,
            n,
            rx.pointer,
            ctrl,
            packet,
            pace(RxStageView::Probing { packet, byte }),
            probed(opts, addr, rx, ctrl, packet, byte, single),
            way.0,
            way.1,
        ),
{
    let before = pace(RxStageView::Probing { packet, byte });
    let bulk = packet.payload[byte.at() as int];
    let kept = RxView { bytes: rx.bytes.checked(byte, bulk != single), ..rx };
    let report = Report::ByteProbeBad {
        probe_offset: byte.at(),
        bulk,
        single,
        ring_offset: ring_moved(packet.start, byte.at() as int),
    };
    let first = optional(bulk != single, ActionView::Log { report });
    if byte is O4 {
        let way = lemma_probe_o9(opts, addr, n, kept, ctrl, packet, before);
        let next = probe_o9(opts, addr, kept, ctrl, packet);
        lemma_onward_after(
            opts,
            addr,
            n,
            rx.pointer,
            ctrl,
            packet,
            before,
            next,
            way.0,
            way.1,
            first,
        );
        (way.0, first + way.1)
    } else {
        let way = lemma_sampled(opts, addr, n, kept, ctrl, packet, before);
        let next = sampled(opts, addr, kept, ctrl, packet);
        lemma_onward_after(
            opts,
            addr,
            n,
            rx.pointer,
            ctrl,
            packet,
            before,
            next,
            way.0,
            way.1,
            first,
        );
        (way.0, first + way.1)
    }
}

proof fn lemma_sample(
    opts: Options,
    addr: u32,
    n: int,
    rx: RxView,
    ctrl: HostCtrl,
    packet: RxPacketView,
    before: int,
) -> (way: (RxView, Seq<ActionView>))
    requires
        0 <= n,
        before > 11,
        n < u32::MAX ==> readback_at(opts, n + 1, rx.readback) && bytes_at(opts, n, rx.bytes),
    ensures
        onward(
            opts,
            addr,
            n,
            rx.pointer,
            ctrl,
            packet,
            before,
            sample(opts, addr, rx, ctrl, packet),
            way.0,
            way.1,
        ),
{
    if opts.rx_byte_probe {
        let kept = RxView { bytes: rx.bytes.counted(), ..rx };
        if kept.bytes.due() {
            lemma_probe_o4(opts, addr, n, kept, ctrl, packet, before)
        } else {
            lemma_sampled(opts, addr, n, kept, ctrl, packet, before)
        }
    } else {
        assert(Seq::<ActionView>::empty() + finish(opts, addr, rx, ctrl, packet).acts =~= finish(
            opts,
            addr,
            rx,
            ctrl,
            packet,
        ).acts);
        (rx, seq![])
    }
}

proof fn lemma_searched(
    opts: Options,
    addr: u32,
    n: int,
    rx: RxView,
    ctrl: HostCtrl,
    packet: RxPacketView,
    before: int,
) -> (way: (RxView, Seq<ActionView>))
    requires
        0 <= n,
        before > 11,
        n < u32::MAX ==> readback_at(opts, n + 1, rx.readback) && bytes_at(opts, n, rx.bytes),
    ensures
        onward(
            opts,
            addr,
            n,
            rx.pointer,
            ctrl,
            packet,
            before,
            searched(opts, addr, rx, ctrl, packet),
            way.0,
            way.1,
        ),
{
    let way = lemma_sample(opts, addr, n, rx, ctrl, packet, before);
    let next = sample(opts, addr, rx, ctrl, packet);
    let first = logged(rx.sentinel.summary());
    lemma_onward_after(opts, addr, n, rx.pointer, ctrl, packet, before, next, way.0, way.1, first);
    (way.0, first + way.1)
}

/// A damaged sentinel block is reported, and the packet goes on.
pub proof fn lemma_damage_onward(
    opts: Options,
    addr: u32,
    n: int,
    rx: RxView,
    ctrl: HostCtrl,
    packet: RxPacketView,
    hit: SentinelHit,
    single: u8,
) -> (way: (RxView, Seq<ActionView>))
    requires
        0 <= n,
        tally(opts, n, rx, RxStageView::Damaged { packet, hit }),
    ensures
        onward(
            opts,
            addr,
            n,
            rx.pointer,
            ctrl,
            packet,
            pace(RxStageView::Damaged { packet, hit }),
            damage_shown(opts, addr, rx, ctrl, packet, hit, single),
            way.0,
            way.1,
        ),
{
    let way = lemma_searched(opts, addr, n, rx, ctrl, packet, 12);
    let next = searched(opts, addr, rx, ctrl, packet);
    let report = Report::SentinelBad {
        acl_offset: hit.acl_offset,
        cross_boundary: hit.cross_boundary,
        tail_index: hit.tail_index,
        bulk: hit.bulk,
        single,
        ring_offset: hit.ring_offset,
        got_tail: hit.got_tail,
    };
    let first = seq![ActionView::Log { report }];
    lemma_onward_after(opts, addr, n, rx.pointer, ctrl, packet, 12, next, way.0, way.1, first);
    (way.0, first + way.1)
}

proof fn lemma_search(
    opts: Options,
    addr: u32,
    n: int,
    rx: RxView,
    ctrl: HostCtrl,
    packet: RxPacketView,
    before: int,
) -> (way: (RxView, Seq<ActionView>))
    requires
        0 <= n,
        before > 12,
        n < u32::MAX ==> readback_at(opts, n + 1, rx.readback) && bytes_at(opts, n, rx.bytes),
    ensures
        onward(
            opts,
            addr,
            n,
            rx.pointer,
            ctrl,
            packet,
            before,
            search(opts, addr, rx, ctrl, packet),
            way.0,
            way.1,
        ),
{
    let valid = packet.valid();
    let kept = RxView {
        sentinel: rx.sentinel.observed(packet.kind, valid, packet.start),
        ..rx
    };
    if !opts.rx_sentinel_probe {
        lemma_sample(opts, addr, n, rx, ctrl, packet, before)
    } else if rx.sentinel.found(packet.kind, valid, packet.start) is Some {
        (rx, seq![])
    } else {
        lemma_searched(opts, addr, n, kept, ctrl, packet, before)
    }
}

proof fn lemma_reread(
    opts: Options,
    addr: u32,
    n: int,
    rx: RxView,
    ctrl: HostCtrl,
    packet: RxPacketView,
    before: int,
) -> (way: (RxView, Seq<ActionView>))
    requires
        0 <= n,
        before > 12,
        n < u32::MAX ==> readback_at(opts, n + 1, rx.readback) && bytes_at(opts, n, rx.bytes),
    ensures
        onward(
            opts,
            addr,
            n,
            rx.pointer,
            ctrl,
            packet,
            before,
            reread(opts, addr, rx, ctrl, packet),
            way.0,
            way.1,
        ),
{
    let way = lemma_search(opts, addr, n, rx, ctrl, packet, before);
    let next = search(opts, addr, rx, ctrl, packet);
    let first = logged(rx.readback.summary());
    lemma_onward_after(opts, addr, n, rx.pointer, ctrl, packet, before, next, way.0, way.1, first);
    (way.0, first + way.1)
}

/// A packet that has been read is counted, and goes on.
pub proof fn lemma_received_onward(
    opts: Options,
    addr: u32,
    n: int,
    rx: RxView,
    ctrl: HostCtrl,
    packet: RxPacketView,
) -> (way: (RxView, Seq<ActionView>))
    requires
        0 <= n,
        n <= u32::MAX ==> tallied(opts, n, rx),
    ensures
        onward(
            opts,
            addr,
            n,
            rx.pointer,
            ctrl,
            packet,
            15,
            received(opts, addr, rx, ctrl, packet),
            way.0,
            way.1,
        ),
{
    let kept = RxView { readback: rx.readback.counted(), ..rx };
    if !opts.rx_readback_probe {
        lemma_search(opts, addr, n, rx, ctrl, packet, 15)
    } else if kept.readback.due() {
        lemma_chunks_calm(rx_base(addr), packet.start, packet.payload.len() as int);
        (rx, seq![])
    } else {
        lemma_reread(opts, addr, n, kept, ctrl, packet, 15)
    }
}

/// A packet that has been read twice is compared, and goes on.
pub proof fn lemma_compared_onward(
    opts: Options,
    addr: u32,
    n: int,
    rx: RxView,
    ctrl: HostCtrl,
    packet: RxPacketView,
    again: Seq<u8>,
) -> (way: (RxView, Seq<ActionView>))
    requires
        0 <= n,
        tally(opts, n, rx, RxStageView::ReadingTwice(packet)),
    ensures
        onward(
            opts,
            addr,
            n,
            rx.pointer,
            ctrl,
            packet,
            14,
            compared(opts, addr, rx, ctrl, packet, again),
            way.0,
            way.1,
        ),
{
    if diff_of(packet.payload, again).mismatches != 0 {
        (rx, seq![])
    } else {
        lemma_reread(opts, addr, n, rx, ctrl, packet, 14)
    }
}

/// A difference between two readings is reported, and the packet goes on.
pub proof fn lemma_difference_onward(
    opts: Options,
    addr: u32,
    n: int,
    rx: RxView,
    ctrl: HostCtrl,
    packet: RxPacketView,
    diff: Diff,
    single: u8,
) -> (way: (RxView, Seq<ActionView>))
    requires
        0 <= n,
        tally(opts, n, rx, RxStageView::Differing { packet, diff }),
    ensures
        onward(
            opts,
            addr,
            n,
            rx.pointer,
            ctrl,
            packet,
            13,
            difference_shown(opts, addr, rx, ctrl, packet, diff, single),
            way.0,
            way.1,
        ),
{
    let way = lemma_reread(opts, addr, n, rx, ctrl, packet, 13);
    let next = reread(opts, addr, rx, ctrl, packet);
    let first = seq![
        ActionView::Log { report: difference_report(rx.readback, packet, diff, single) },
    ];
    lemma_onward_after(opts, addr, n, rx.pointer, ctrl, packet, 13, next, way.0, way.1, first);
    (way.0, first + way.1)
}

} // verus!
