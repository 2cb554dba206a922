//! How often received packets are probed: every so many of the packets handed over,
//! over any number of interrupts.

use vstd::prelude::*;

use crate::action::{byte_of, optional, word_of, words_of, ActionView, Reply};
use crate::consts::BTSDIO_OFFSET_BT2HOST_IN;
use crate::delivery::{
    hands_nothing_over, law_submitted_in_turn, lemma_nothing_submitted, rx_run, submitted,
};
use crate::diff::Diff;
use crate::host_ctrl::{signal_change, update_begin, update_next, HostCtrl, HostCtrlUpdate};
use crate::options::Options;
use crate::passage::{
    calm, held, lemma_compared_onward, lemma_damage_onward, lemma_difference_onward,
    lemma_probed_onward, lemma_received_onward, onward, pace, tallied, tally,
};
use crate::pointer::{pointer_reports, pointer_words, PointerWrite};
use crate::probe::{ByteProbe, ProbedByte, RxReadback, BYTE_PROBE_EVERY, READBACK_EVERY};
use crate::ring::{header_len, joined, padded_len, ring_moved, ring_reads};
use crate::rx::{
    checked, compared, damage_shown, difference_shown, finish, framed, out_write, pointed, probed,
    published, received, rx_base, rx_next, signalled, signalling, submit, RxPacketView, RxStageView,
    RxStep, RxView, BT_RING_RX_INTR_DELAY_US, BT_RING_RX_OUT_DELAY_US,
};
use crate::sentinel::SentinelHit;

verus! {

/// Whether after a step the probes have counted what was handed over before it,
/// and what it handed over.
pub open spec fn counts(opts: Options, n: int, step: RxStep) -> bool {
    tally(opts, n + submitted(step.acts).len(), step.rx, step.stage)
}

proof fn lemma_counts_after(opts: Options, n: int, step: RxStep, first: Seq<ActionView>)
    requires
        counts(opts, n, step),
        hands_nothing_over(first),
    ensures
        counts(opts, n, step.after(first)),
{
    lemma_nothing_submitted(first);
    law_submitted_in_turn(first, step.acts);
    assert(submitted(first) + submitted(step.acts) =~= submitted(step.acts));
}

proof fn lemma_submit_counts(
    opts: Options,
    addr: u32,
    n: int,
    rx: RxView,
    ctrl: HostCtrl,
    packet: RxPacketView,
)
    requires
        n < u32::MAX ==> tallied(opts, n + 1, rx),
    ensures
        counts(opts, n, submit(opts, addr, rx, ctrl, packet)),
{
    let change = signal_change(opts);
    let step = update_begin(opts, ctrl, change);
    let update = HostCtrlUpdate { change, stage: step.stage };
    let next = signalled(opts, addr, rx, step.ctrl, update);
    let whole = submit(opts, addr, rx, ctrl, packet);
    let hand = seq![ActionView::SubmitRx { data: packet.bytes() }];
    let delay = optional(
        opts.rx_intr_delay,
        ActionView::Delay { micros: BT_RING_RX_INTR_DELAY_US },
    );
    let later = delay + step.acts + next.acts;
    assert(whole.acts =~= hand + later);
    assert(hands_nothing_over(step.acts));
    assert(hands_nothing_over(later));
    lemma_nothing_submitted(later);
    law_submitted_in_turn(hand, later);
    assert(hand.drop_last() =~= seq![]);
    reveal_with_fuel(submitted, 2);
    assert(submitted(whole.acts).len() == 1);
}

proof fn lemma_finish_counts(
    opts: Options,
    addr: u32,
    n: int,
    rx: RxView,
    ctrl: HostCtrl,
    packet: RxPacketView,
)
    requires
        n < u32::MAX ==> tallied(opts, n + 1, rx),
    ensures
        counts(opts, n, finish(opts, addr, rx, ctrl, packet)),
{
    let end = ring_moved(rx.pointer, packet.payload.len() as int);
    let moved = RxView { pointer: end, ..rx };
    let delay = optional(
        opts.rx_out_delay,
        ActionView::Delay { micros: BT_RING_RX_OUT_DELAY_US },
    );
    let step = finish(opts, addr, rx, ctrl, packet);
    if opts.pointer_write_readback {
        assert(hands_nothing_over(step.acts));
        lemma_nothing_submitted(step.acts);
    } else {
        let next = submit(opts, addr, moved, ctrl, packet);
        let first = delay + seq![out_write(opts, addr, end).write()];
        lemma_submit_counts(opts, addr, n, moved, ctrl, packet);
        assert(hands_nothing_over(first));
        lemma_counts_after(opts, n, next, first);
    }
}

proof fn lemma_onward_counts(
    opts: Options,
    addr: u32,
    n: int,
    pointer: u32,
    ctrl: HostCtrl,
    packet: RxPacketView,
    before: int,
    step: RxStep,
    kept: RxView,
    logs: Seq<ActionView>,
)
    requires
        onward(opts, addr, n, pointer, ctrl, packet, before, step, kept, logs),
    ensures
        counts(opts, n, step),
{
    if held(step.stage) == Some(packet) && calm(step.acts) && tally(opts, n, step.rx, step.stage) {
        assert(hands_nothing_over(step.acts));
        lemma_nothing_submitted(step.acts);
    } else {
        let last = finish(opts, addr, kept, ctrl, packet);
        lemma_finish_counts(opts, addr, n, kept, ctrl, packet);
        assert(hands_nothing_over(logs));
        lemma_counts_after(opts, n, last, logs);
    }
}

/// Whether a step of receiving packets is one that [`counts`].
#[verifier::opaque]
spec fn next_counts(
    opts: Options,
    addr: u32,
    n: int,
    rx: RxView,
    ctrl: HostCtrl,
    stage: RxStageView,
    replies: Seq<Reply>,
) -> bool {
    counts(opts, n, rx_next(opts, addr, rx, ctrl, stage, replies))
}

proof fn lemma_payload_counts(
    opts: Options,
    addr: u32,
    n: int,
    rx: RxView,
    ctrl: HostCtrl,
    kind: u8,
    len: u32,
    replies: Seq<Reply>,
)
    requires
        0 <= n,
        tally(opts, n, rx, RxStageView::ReadingPayload { kind, len }),
    ensures
        next_counts(opts, addr, n, rx, ctrl, RxStageView::ReadingPayload { kind, len }, replies),
{
    let packet = RxPacketView { kind, len, start: rx.pointer, payload: joined(replies) };
    let way = lemma_received_onward(opts, addr, n, rx, ctrl, packet);
    let step = received(opts, addr, rx, ctrl, packet);
    lemma_onward_counts(opts, addr, n, rx.pointer, ctrl, packet, 15, step, way.0, way.1);
    reveal(next_counts);
}

proof fn lemma_compared_counts(
    opts: Options,
    addr: u32,
    n: int,
    rx: RxView,
    ctrl: HostCtrl,
    packet: RxPacketView,
    replies: Seq<Reply>,
)
    requires
        0 <= n,
        tally(opts, n, rx, RxStageView::ReadingTwice(packet)),
    ensures
        next_counts(opts, addr, n, rx, ctrl, RxStageView::ReadingTwice(packet), replies),
{
    let way = lemma_compared_onward(opts, addr, n, rx, ctrl, packet, joined(replies));
    let step = compared(opts, addr, rx, ctrl, packet, joined(replies));
    lemma_onward_counts(
        opts,
        addr,
        n,
        rx.pointer,
        ctrl,
        packet,
        pace(RxStageView::ReadingTwice(packet)),
        step,
        way.0,
        way.1,
    );
    reveal(next_counts);
}

proof fn lemma_difference_counts(
    opts: Options,
    addr: u32,
    n: int,
    rx: RxView,
    ctrl: HostCtrl,
    packet: RxPacketView,
    diff: Diff,
    replies: Seq<Reply>,
)
    requires
        0 <= n,
        tally(opts, n, rx, RxStageView::Differing { packet, diff }),
    ensures
        next_counts(opts, addr, n, rx, ctrl, RxStageView::Differing { packet, diff }, replies),
{
    let way = lemma_difference_onward(opts, addr, n, rx, ctrl, packet, diff, byte_of(replies[0]));
    let step = difference_shown(opts, addr, rx, ctrl, packet, diff, byte_of(replies[0]));
    lemma_onward_counts(
        opts,
        addr,
        n,
        rx.pointer,
        ctrl,
        packet,
        pace(RxStageView::Differing { packet, diff }),
        step,
        way.0,
        way.1,
    );
    reveal(next_counts);
}

proof fn lemma_damage_counts(
    opts: Options,
    addr: u32,
    n: int,
    rx: RxView,
    ctrl: HostCtrl,
    packet: RxPacketView,
    hit: SentinelHit,
    replies: Seq<Reply>,
)
    requires
        0 <= n,
        tally(opts, n, rx, RxStageView::Damaged { packet, hit }),
    ensures
        next_counts(opts, addr, n, rx, ctrl, RxStageView::Damaged { packet, hit }, replies),
{
    let way = lemma_damage_onward(opts, addr, n, rx, ctrl, packet, hit, byte_of(replies[0]));
    let step = damage_shown(opts, addr, rx, ctrl, packet, hit, byte_of(replies[0]));
    lemma_onward_counts(
        opts,
        addr,
        n,
        rx.pointer,
        ctrl,
        packet,
        pace(RxStageView::Damaged { packet, hit }),
        step,
        way.0,
        way.1,
    );
    reveal(next_counts);
}

proof fn lemma_probed_counts(
    opts: Options,
    addr: u32,
    n: int,
    rx: RxView,
    ctrl: HostCtrl,
    packet: RxPacketView,
    byte: ProbedByte,
    replies: Seq<Reply>,
)
    requires
        0 <= n,
        tally(opts, n, rx, RxStageView::Probing { packet, byte }),
    ensures
        next_counts(opts, addr, n, rx, ctrl, RxStageView::Probing { packet, byte }, replies),
{
    let way = lemma_probed_onward(opts, addr, n, rx, ctrl, packet, byte, byte_of(replies[0]));
    let step = probed(opts, addr, rx, ctrl, packet, byte, byte_of(replies[0]));
    lemma_onward_counts(
        opts,
        addr,
        n,
        rx.pointer,
        ctrl,
        packet,
        pace(RxStageView::Probing { packet, byte }),
        step,
        way.0,
        way.1,
    );
    reveal(next_counts);
}

proof fn lemma_published_counts(
    opts: Options,
    addr: u32,
    n: int,
    rx: RxView,
    ctrl: HostCtrl,
    packet: RxPacketView,
    write: PointerWrite,
    replies: Seq<Reply>,
)
    requires
        0 <= n,
        tally(opts, n, rx, RxStageView::Publishing { packet, write }),
    ensures
        next_counts(opts, addr, n, rx, ctrl, RxStageView::Publishing { packet, write }, replies),
{
    let got = word_of(replies[0]);
    let step = published(opts, addr, rx, ctrl, packet, write, got);
    let acts = write.next_acts(opts, got);
    assert(hands_nothing_over(acts));
    lemma_nothing_submitted(acts);
    if write.next_stage(opts, got) is Done {
        lemma_submit_counts(opts, addr, n, rx, ctrl, packet);
        lemma_counts_after(opts, n, submit(opts, addr, rx, ctrl, packet), acts);
    }
    assert(counts(opts, n, step));
    reveal(next_counts);
}

proof fn lemma_signalling_counts(
    opts: Options,
    addr: u32,
    n: int,
    rx: RxView,
    ctrl: HostCtrl,
    update: HostCtrlUpdate,
    replies: Seq<Reply>,
)
    requires
        0 <= n,
        tally(opts, n, rx, RxStageView::Signalling(update)),
    ensures
        next_counts(opts, addr, n, rx, ctrl, RxStageView::Signalling(update), replies),
{
    let step = signalling(opts, addr, rx, ctrl, update, words_of(replies));
    assert(hands_nothing_over(update_next(opts, ctrl, update, words_of(replies)).acts));
    assert(hands_nothing_over(step.acts));
    lemma_nothing_submitted(step.acts);
    assert(counts(opts, n, step));
    reveal(next_counts);
}

proof fn lemma_pointed_counts(
    opts: Options,
    addr: u32,
    n: int,
    rx: RxView,
    ctrl: HostCtrl,
    replies: Seq<Reply>,
)
    requires
        0 <= n,
        tally(opts, n, rx, RxStageView::Polling),
    ensures
        next_counts(opts, addr, n, rx, ctrl, RxStageView::Polling, replies),
{
    let words = pointer_words(opts, replies, 0);
    let reports = pointer_reports(BTSDIO_OFFSET_BT2HOST_IN, words);
    let reads = ring_reads(rx_base(addr), rx.pointer, 4);
    let step = pointed(opts, addr, rx, ctrl, words);
    assert(hands_nothing_over(reports));
    assert(hands_nothing_over(reads));
    assert(hands_nothing_over(reports + reads));
    lemma_nothing_submitted(step.acts);
    assert(counts(opts, n, step));
    reveal(next_counts);
}

proof fn lemma_framed_counts(
    opts: Options,
    addr: u32,
    n: int,
    rx: RxView,
    ctrl: HostCtrl,
    available: u32,
    replies: Seq<Reply>,
)
    requires
        0 <= n,
        tally(opts, n, rx, RxStageView::ReadingHeader { available }),
    ensures
        next_counts(opts, addr, n, rx, ctrl, RxStageView::ReadingHeader { available }, replies),
{
    let header = joined(replies);
    let reads = ring_reads(
        rx_base(addr),
        ring_moved(rx.pointer, 4),
        padded_len(header_len(header)),
    );
    let step = framed(addr, rx, ctrl, available, header);
    assert(hands_nothing_over(reads));
    assert(hands_nothing_over(seq![ActionView::ReserveRx] + reads));
    lemma_nothing_submitted(step.acts);
    assert(counts(opts, n, step));
    reveal(next_counts);
}

proof fn lemma_checked_counts(
    opts: Options,
    addr: u32,
    n: int,
    rx: RxView,
    ctrl: HostCtrl,
    replies: Seq<Reply>,
)
    requires
        0 <= n,
        tally(opts, n, rx, RxStageView::Checking),
    ensures
        next_counts(opts, addr, n, rx, ctrl, RxStageView::Checking, replies),
{
    let step = checked(opts, addr, rx, ctrl, word_of(replies[0]));
    assert(hands_nothing_over(step.acts));
    lemma_nothing_submitted(step.acts);
    assert(counts(opts, n, step));
    reveal(next_counts);
}

proof fn lemma_stopped_counts(
    opts: Options,
    addr: u32,
    n: int,
    rx: RxView,
    ctrl: HostCtrl,
    stage: RxStageView,
    replies: Seq<Reply>,
)
    requires
        stage is Done || stage is Failed,
        tally(opts, n, rx, stage),
    ensures
        next_counts(opts, addr, n, rx, ctrl, stage, replies),
{
    lemma_nothing_submitted(Seq::<ActionView>::empty());
    reveal(next_counts);
}

proof fn lemma_stages_count(
    opts: Options,
    addr: u32,
    n: int,
    rx: RxView,
    ctrl: HostCtrl,
    stage: RxStageView,
    replies: Seq<Reply>,
)
    requires
        0 <= n,
        tally(opts, n, rx, stage),
    ensures
        next_counts(opts, addr, n, rx, ctrl, stage, replies),
{
    match stage {
        RxStageView::Checking => {
            lemma_checked_counts(opts, addr, n, rx, ctrl, replies);
        },
        RxStageView::Polling => {
            lemma_pointed_counts(opts, addr, n, rx, ctrl, replies);
        },
        RxStageView::ReadingHeader { available } => {
            lemma_framed_counts(opts, addr, n, rx, ctrl, available, replies);
        },
        RxStageView::ReadingPayload { kind, len } => {
            lemma_payload_counts(opts, addr, n, rx, ctrl, kind, len, replies);
        },
        RxStageView::ReadingTwice(packet) => {
            lemma_compared_counts(opts, addr, n, rx, ctrl, packet, replies);
        },
        RxStageView::Differing { packet, diff } => {
            lemma_difference_counts(opts, addr, n, rx, ctrl, packet, diff, replies);
        },
        RxStageView::Damaged { packet, hit } => {
            lemma_damage_counts(opts, addr, n, rx, ctrl, packet, hit, replies);
        },
        RxStageView::Probing { packet, byte } => {
            lemma_probed_counts(opts, addr, n, rx, ctrl, packet, byte, replies);
        },
        RxStageView::Publishing { packet, write } => {
            lemma_published_counts(opts, addr, n, rx, ctrl, packet, write, replies);
        },
        RxStageView::Signalling(update) => {
            lemma_signalling_counts(opts, addr, n, rx, ctrl, update, replies);
        },
        _ => {
            lemma_stopped_counts(opts, addr, n, rx, ctrl, stage, replies);
        },
    }
}

/// Whatever the replies, the probes have counted the packets handed over, and the
/// one in hand as far as it has got.
pub proof fn law_interrupt_counts(
    opts: Options,
    addr: u32,
    n: int,
    rx: RxView,
    ctrl: HostCtrl,
    stage: RxStageView,
    rounds: Seq<Seq<Reply>>,
)
    requires
        0 <= n,
        tally(opts, n, rx, stage),
    ensures
        ({
            let run = rx_run(opts, addr, rx, ctrl, stage, rounds);
            tally(opts, n + submitted(run.acts).len(), run.rx, run.stage)
        }),
    decreases rounds.len(),
{
    if rounds.len() > 0 {
        let before = rx_run(opts, addr, rx, ctrl, stage, rounds.drop_last());
        law_interrupt_counts(opts, addr, n, rx, ctrl, stage, rounds.drop_last());
        let so_far = n + submitted(before.acts).len();
        lemma_stages_count(
            opts,
            addr,
            so_far,
            before.rx,
            before.ctrl,
            before.stage,
            rounds.last(),
        );
        reveal(next_counts);
        let step = rx_next(opts, addr, before.rx, before.ctrl, before.stage, rounds.last());
        law_submitted_in_turn(before.acts, step.acts);
    } else {
        lemma_nothing_submitted(Seq::<ActionView>::empty());
    }
}

/// One interrupt: the host control register as it stands then, and the replies of
/// its rounds.
pub struct Interrupt {
    pub ctrl: HostCtrl,
    pub rounds: Seq<Seq<Reply>>,
}

/// Where some interrupts, one after the other, lead to: what is kept after them,
/// and how many packets they have handed over.
pub open spec fn rx_life(opts: Options, addr: u32, rx: RxView, irqs: Seq<Interrupt>) -> (
    RxView,
    nat,
)
    decreases irqs.len(),
{
    if irqs.len() == 0 {
        (rx, 0)
    } else {
        let (kept, n) = rx_life(opts, addr, rx, irqs.drop_last());
        let irq = irqs.last();
        let run = rx_run(opts, addr, kept, irq.ctrl, RxStageView::Checking, irq.rounds);
        (run.rx, n + submitted(run.acts).len())
    }
}

/// Whether each of some interrupts has been handled to its end.
pub open spec fn all_done(opts: Options, addr: u32, rx: RxView, irqs: Seq<Interrupt>) -> bool
    decreases irqs.len(),
{
    irqs.len() > 0 ==> {
        let (kept, n) = rx_life(opts, addr, rx, irqs.drop_last());
        let irq = irqs.last();
        let run = rx_run(opts, addr, kept, irq.ctrl, RxStageView::Checking, irq.rounds);
        all_done(opts, addr, rx, irqs.drop_last()) && run.stage is Done
    }
}

proof fn lemma_life_counts(opts: Options, addr: u32, rx: RxView, irqs: Seq<Interrupt>)
    requires
        tallied(opts, 0, rx),
        all_done(opts, addr, rx, irqs),
        rx_life(opts, addr, rx, irqs).1 <= u32::MAX,
    ensures
        ({
            let (kept, n) = rx_life(opts, addr, rx, irqs);
            tallied(opts, n as int, kept)
        }),
    decreases irqs.len(),
{
    if irqs.len() > 0 {
        let (kept, n) = rx_life(opts, addr, rx, irqs.drop_last());
        let irq = irqs.last();
        lemma_life_counts(opts, addr, rx, irqs.drop_last());
        law_interrupt_counts(
            opts,
            addr,
            n as int,
            kept,
            irq.ctrl,
            RxStageView::Checking,
            irq.rounds,
        );
    }
}

/// From the first packet on, and over any number of interrupts: of `n` packets
/// handed over, one in thirty-two has been read twice, and no more than one in
/// sixty-four has had its single bytes read again, the second of them never more
/// often than the first. Nothing differs more often than it was looked at.
pub proof fn law_sampling_rate(opts: Options, addr: u32, rx: RxView, irqs: Seq<Interrupt>)
    requires
        rx.readback == (RxReadback {
            packets: 0,
            sampled: 0,
            mismatch_packets: 0,
            mismatch_bytes: 0,
        }),
        rx.bytes == (ByteProbe {
            packets: 0,
            checked_o4: 0,
            mismatch_o4: 0,
            checked_o9: 0,
            mismatch_o9: 0,
        }),
        all_done(opts, addr, rx, irqs),
        rx_life(opts, addr, rx, irqs).1 <= u32::MAX,
    ensures
        ({
            let (kept, n) = rx_life(opts, addr, rx, irqs);
            &&& opts.rx_readback_probe ==> {
                &&& kept.readback.packets == n
                &&& kept.readback.sampled == n / READBACK_EVERY as nat
                &&& kept.readback.mismatch_packets <= kept.readback.sampled
            }
            &&& opts.rx_byte_probe ==> {
                &&& kept.bytes.packets == n
                &&& kept.bytes.checked_o4 <= n / BYTE_PROBE_EVERY as nat
                &&& kept.bytes.checked_o9 <= kept.bytes.checked_o4
                &&& kept.bytes.mismatch_o4 <= kept.bytes.checked_o4
                &&& kept.bytes.mismatch_o9 <= kept.bytes.checked_o9
            }
        }),
{
    lemma_life_counts(opts, addr, rx, irqs);
}

} // verus!
