//! Whatever the Bluetooth core adds to the ring meanwhile: each packet that an
//! interrupt hands over is acknowledged before and answered after, one packet after
//! the other.

use vstd::prelude::*;

use crate::action::{byte_of, word_of, words_of, ActionView, Reply};
use crate::consts::{
    BTSDIO_OFFSET_BT2HOST_IN, BTSDIO_REG_DATA_VALID_BITMASK, I_HMB_FC_CHANGE, MAX_RAM_BASE,
};
use crate::delivery::{rx_run, submitted};
use crate::diff::Diff;
use crate::footprint::registers_apart;
use crate::host_ctrl::{HostCtrl, HostCtrlUpdate};
use crate::interrupt::{
    answer, answered_at, due, due_interrupts, each_answered, event, gone, law_raised,
    law_trace_in_turn, lemma_calm_unseen, lemma_one_seen, lemma_onward_gone, lemma_published_gone,
    lemma_raised_in_turn, lemma_signalling_gone, raised, ready, trace, Event,
};
use crate::memory::Memory;
use crate::options::Options;
use crate::passage::{
    calm, held, lemma_compared_onward, lemma_damage_onward, lemma_difference_onward,
    lemma_probed_onward, lemma_received_onward, pace,
};
use crate::pointer::{pointer_reports, pointer_words, PointerWrite};
use crate::probe::ProbedByte;
use crate::ring::{header_len, joined, padded_len, ring_moved, ring_reads};
use crate::rx::{
    ask_pointer, checked, compared, damage_shown, difference_shown, framed, int_status_addr,
    pointed, probed, published, received, rx_base, rx_next, signalling, RxPacketView, RxStageView,
    RxStep, RxView,
};
use crate::sentinel::SentinelHit;

verus! {

/// The packets that some events hand over, in order.
pub open spec fn handed(events: Seq<Event>) -> Seq<Seq<u8>>
    decreases events.len(),
{
    if events.len() == 0 {
        seq![]
    } else {
        let before = handed(events.drop_last());
        match events.last() {
            Event::HandedOver(packet) => before.push(packet),
            _ => before,
        }
    }
}

proof fn lemma_handed_in_turn(a: Seq<Event>, b: Seq<Event>)
    ensures
        handed(a + b) == handed(a) + handed(b),
    decreases b.len(),
{
    if b.len() == 0 {
        assert(a + b =~= a);
        assert(handed(a) + handed(b) =~= handed(a));
    } else {
        lemma_handed_in_turn(a, b.drop_last());
        assert((a + b).drop_last() =~= a + b.drop_last());
        assert((a + b).last() == b.last());
        assert(handed(a + b) =~= handed(a) + handed(b));
    }
}

/// The packets that are seen to be handed over are those submitted.
pub proof fn law_submitted_is_seen(addr: u32, acts: Seq<ActionView>)
    ensures
        handed(trace(addr, acts)) == submitted(acts),
    decreases acts.len(),
{
    if acts.len() > 0 {
        law_submitted_is_seen(addr, acts.drop_last());
        let before = trace(addr, acts.drop_last());
        match event(addr, acts.last()) {
            Some(seen) => {
                assert(before.push(seen).drop_last() =~= before);
            },
            None => {},
        }
    }
}

/// Whether some events are those of one packet that ends at `end`.
pub open spec fn one_answer(events: Seq<Event>, end: u32) -> bool {
    &&& events.len() == 3
    &&& events[0] == Event::Acknowledged(end)
    &&& events[1] is HandedOver
    &&& events[2] is Raised
}

proof fn lemma_one_more(events: Seq<Event>, more: Seq<Event>, end: u32)
    requires
        each_answered(handed(events), events),
        one_answer(more, end),
    ensures
        each_answered(handed(events + more), events + more),
        handed(events + more).len() == handed(events).len() + 1,
{
    let packet = more[1]->HandedOver_0;
    let packets = handed(events);
    let all = events + more;
    lemma_handed_in_turn(events, more);
    assert(handed(more) =~= seq![packet]) by {
        reveal_with_fuel(handed, 4);
        assert(more.drop_last().drop_last().drop_last() =~= seq![]);
        assert(more.drop_last().last() == more[1]);
        assert(more.drop_last().drop_last().last() == more[0]);
    }
    let longer = packets + seq![packet];
    assert(handed(all) == longer);
    assert forall|i: int| 0 <= i < longer.len() implies answered_at(
        all,
        3 * i,
        #[trigger] longer[i],
    ) by {
        if i < packets.len() {
            assert(longer[i] == packets[i]);
            assert(answered_at(events, 3 * i, packets[i]));
        } else {
            assert(all[3 * i] == more[0]);
            assert(all[3 * i + 1] == more[1]);
            assert(all[3 * i + 2] == more[2]);
        }
    }
}

/// Where the host has read up to, after some events and from `from` on: to where
/// it acknowledged last.
pub open spec fn read_up_to(events: Seq<Event>, from: u32) -> u32 {
    if events.len() < 3 {
        from
    } else {
        events[events.len() - 3]->Acknowledged_0
    }
}

/// Whether the read pointer stands between two packets.
pub open spec fn between(stage: RxStageView) -> bool {
    !(stage is ReadingPayload || held(stage) is Some)
}

/// What is still to be seen of a packet that was acknowledged.
pub open spec fn tail(stage: RxStageView) -> Seq<Event> {
    match stage {
        RxStageView::Publishing { packet, write } => seq![
            Event::HandedOver(packet.bytes()),
            Event::Raised,
        ],
        RxStageView::Signalling(update) => if update.stage is Reading {
            seq![Event::Raised]
        } else {
            seq![]
        },
        _ => seq![],
    }
}

/// Whether a step goes on with the packet that is being dealt with, and shows of it
/// what is next.
pub open spec fn proceeds(
    opts: Options,
    addr: u32,
    rx: RxView,
    ctrl: HostCtrl,
    stage: RxStageView,
    step: RxStep,
) -> bool {
    step.stage is Failed || {
        let seen = trace(addr, step.acts) + tail(step.stage);
        let before = raised(opts, ctrl.cache, due_interrupts(stage));
        let after = raised(opts, step.ctrl.cache, due_interrupts(step.stage));
        &&& ready(opts, step.stage)
        &&& !(step.stage is Checking)
        &&& between(stage) ==> seen == tail(stage)
        &&& between(stage) && between(step.stage) ==> {
            step.rx.pointer == rx.pointer && after == before
        }
        &&& between(stage) && !between(step.stage) ==> {
            step.ctrl.cache == ctrl.cache && due_interrupts(stage) == 0
        }
        &&& !between(stage) && between(step.stage) ==> {
            one_answer(seen, step.rx.pointer) && after == before
        }
        &&& !between(stage) && !between(step.stage) ==> {
            seen == Seq::<Event>::empty() && after == before
        }
    }
}

/// A packet in hand goes on.
proof fn lemma_answered(
    opts: Options,
    addr: u32,
    rx: RxView,
    ctrl: HostCtrl,
    stage: RxStageView,
    packet: RxPacketView,
    step: RxStep,
)
    requires
        !between(stage),
        ({
            let end = ring_moved(rx.pointer, packet.payload.len() as int);
            let all = answer(end, packet.bytes());
            gone(opts, addr, end, ctrl.cache, pace(stage), all, 1, step)
        }),
    ensures
        proceeds(opts, addr, rx, ctrl, stage, step),
{
    let end = ring_moved(rx.pointer, packet.payload.len() as int);
    let all = answer(end, packet.bytes());
    if !(step.stage is Failed) {
        let mem: Memory = |at: int| 0u8;
        let later = due(addr, mem, 0, step.rx, step.stage);
        assert(trace(addr, step.acts) + later == all);
        if held(step.stage) is Some {
            assert(later.len() == 3);
            assert(trace(addr, step.acts) =~= seq![]);
            assert(trace(addr, step.acts) + tail(step.stage) =~= seq![]);
        } else {
            assert(later =~= tail(step.stage));
        }
    }
}

/// A packet that was acknowledged goes on.
proof fn lemma_acknowledged(
    opts: Options,
    addr: u32,
    rx: RxView,
    ctrl: HostCtrl,
    stage: RxStageView,
    step: RxStep,
)
    requires
        stage is Publishing || stage is Signalling,
        gone(
            opts,
            addr,
            rx.pointer,
            ctrl.cache,
            pace(stage),
            tail(stage),
            due_interrupts(stage),
            step,
        ),
    ensures
        proceeds(opts, addr, rx, ctrl, stage, step),
{
    if !(step.stage is Failed) {
        let mem: Memory = |at: int| 0u8;
        let later = due(addr, mem, 0, step.rx, step.stage);
        assert(trace(addr, step.acts) + later == tail(stage));
        assert(later.len() <= 2);
        assert(held(step.stage) is None);
        assert(later =~= tail(step.stage));
    }
}

/// Whether a step of receiving packets is one that [`proceeds`].
#[verifier::opaque]
spec fn next_proceeds(
    opts: Options,
    addr: u32,
    rx: RxView,
    ctrl: HostCtrl,
    stage: RxStageView,
    replies: Seq<Reply>,
) -> bool {
    proceeds(opts, addr, rx, ctrl, stage, rx_next(opts, addr, rx, ctrl, stage, replies))
}

proof fn lemma_payload_proceeds(
    opts: Options,
    addr: u32,
    rx: RxView,
    ctrl: HostCtrl,
    kind: u8,
    len: u32,
    replies: Seq<Reply>,
)
    requires
        addr <= MAX_RAM_BASE,
        registers_apart(addr),
    ensures
        next_proceeds(opts, addr, rx, ctrl, RxStageView::ReadingPayload { kind, len }, replies),
{
    let stage = RxStageView::ReadingPayload { kind, len };
    let packet = RxPacketView { kind, len, start: rx.pointer, payload: joined(replies) };
    let way = lemma_received_onward(opts, addr, u32::MAX + 1, rx, ctrl, packet);
    let step = received(opts, addr, rx, ctrl, packet);
    lemma_onward_gone(
        opts,
        addr,
        u32::MAX + 1,
        rx.pointer,
        ctrl,
        packet,
        pace(stage),
        step,
        way.0,
        way.1,
    );
    lemma_answered(opts, addr, rx, ctrl, stage, packet, step);
    reveal(next_proceeds);
}

proof fn lemma_compared_proceeds(
    opts: Options,
    addr: u32,
    rx: RxView,
    ctrl: HostCtrl,
    packet: RxPacketView,
    replies: Seq<Reply>,
)
    requires
        addr <= MAX_RAM_BASE,
        registers_apart(addr),
    ensures
        next_proceeds(opts, addr, rx, ctrl, RxStageView::ReadingTwice(packet), replies),
{
    let stage = RxStageView::ReadingTwice(packet);
    let way = lemma_compared_onward(opts, addr, u32::MAX as int, rx, ctrl, packet, joined(replies));
    let step = compared(opts, addr, rx, ctrl, packet, joined(replies));
    lemma_onward_gone(
        opts,
        addr,
        u32::MAX as int,
        rx.pointer,
        ctrl,
        packet,
        pace(stage),
        step,
        way.0,
        way.1,
    );
    lemma_answered(opts, addr, rx, ctrl, stage, packet, step);
    reveal(next_proceeds);
}

proof fn lemma_difference_proceeds(
    opts: Options,
    addr: u32,
    rx: RxView,
    ctrl: HostCtrl,
    packet: RxPacketView,
    diff: Diff,
    replies: Seq<Reply>,
)
    requires
        addr <= MAX_RAM_BASE,
        registers_apart(addr),
    ensures
        next_proceeds(opts, addr, rx, ctrl, RxStageView::Differing { packet, diff }, replies),
{
    let stage = RxStageView::Differing { packet, diff };
    let way = lemma_difference_onward(
        opts,
        addr,
        u32::MAX as int,
        rx,
        ctrl,
        packet,
        diff,
        byte_of(replies[0]),
    );
    let step = difference_shown(opts, addr, rx, ctrl, packet, diff, byte_of(replies[0]));
    lemma_onward_gone(
        opts,
        addr,
        u32::MAX as int,
        rx.pointer,
        ctrl,
        packet,
        pace(stage),
        step,
        way.0,
        way.1,
    );
    lemma_answered(opts, addr, rx, ctrl, stage, packet, step);
    reveal(next_proceeds);
}

proof fn lemma_damage_proceeds(
    opts: Options,
    addr: u32,
    rx: RxView,
    ctrl: HostCtrl,
    packet: RxPacketView,
    hit: SentinelHit,
    replies: Seq<Reply>,
)
    requires
        addr <= MAX_RAM_BASE,
        registers_apart(addr),
    ensures
        next_proceeds(opts, addr, rx, ctrl, RxStageView::Damaged { packet, hit }, replies),
{
    let stage = RxStageView::Damaged { packet, hit };
    let way = lemma_damage_onward(
        opts,
        addr,
        u32::MAX as int,
        rx,
        ctrl,
        packet,
        hit,
        byte_of(replies[0]),
    );
    let step = damage_shown(opts, addr, rx, ctrl, packet, hit, byte_of(replies[0]));
    lemma_onward_gone(
        opts,
        addr,
        u32::MAX as int,
        rx.pointer,
        ctrl,
        packet,
        pace(stage),
        step,
        way.0,
        way.1,
    );
    lemma_answered(opts, addr, rx, ctrl, stage, packet, step);
    reveal(next_proceeds);
}

proof fn lemma_probed_proceeds(
    opts: Options,
    addr: u32,
    rx: RxView,
    ctrl: HostCtrl,
    packet: RxPacketView,
    byte: ProbedByte,
    replies: Seq<Reply>,
)
    requires
        addr <= MAX_RAM_BASE,
        registers_apart(addr),
    ensures
        next_proceeds(opts, addr, rx, ctrl, RxStageView::Probing { packet, byte }, replies),
{
    let stage = RxStageView::Probing { packet, byte };
    let way = lemma_probed_onward(
        opts,
        addr,
        u32::MAX as int,
        rx,
        ctrl,
        packet,
        byte,
        byte_of(replies[0]),
    );
    let step = probed(opts, addr, rx, ctrl, packet, byte, byte_of(replies[0]));
    lemma_onward_gone(
        opts,
        addr,
        u32::MAX as int,
        rx.pointer,
        ctrl,
        packet,
        pace(stage),
        step,
        way.0,
        way.1,
    );
    lemma_answered(opts, addr, rx, ctrl, stage, packet, step);
    reveal(next_proceeds);
}

proof fn lemma_published_proceeds(
    opts: Options,
    addr: u32,
    rx: RxView,
    ctrl: HostCtrl,
    packet: RxPacketView,
    write: PointerWrite,
    replies: Seq<Reply>,
)
    requires
        addr <= MAX_RAM_BASE,
        registers_apart(addr),
        write.stage is Verifying,
    ensures
        next_proceeds(opts, addr, rx, ctrl, RxStageView::Publishing { packet, write }, replies),
{
    let stage = RxStageView::Publishing { packet, write };
    let got = word_of(replies[0]);
    lemma_published_gone(opts, addr, rx, ctrl, packet, write, got);
    let step = published(opts, addr, rx, ctrl, packet, write, got);
    lemma_acknowledged(opts, addr, rx, ctrl, stage, step);
    reveal(next_proceeds);
}

proof fn lemma_signalling_proceeds(
    opts: Options,
    addr: u32,
    rx: RxView,
    ctrl: HostCtrl,
    update: HostCtrlUpdate,
    replies: Seq<Reply>,
)
    requires
        addr <= MAX_RAM_BASE,
        registers_apart(addr),
        ready(opts, RxStageView::Signalling(update)),
    ensures
        next_proceeds(opts, addr, rx, ctrl, RxStageView::Signalling(update), replies),
{
    let stage = RxStageView::Signalling(update);
    let mem: Memory = |at: int| 0u8;
    lemma_signalling_gone(opts, addr, mem, rx, ctrl, update, words_of(replies));
    assert(due(addr, mem, 0, rx, stage) =~= tail(stage));
    let step = signalling(opts, addr, rx, ctrl, update, words_of(replies));
    lemma_acknowledged(opts, addr, rx, ctrl, stage, step);
    reveal(next_proceeds);
}

proof fn lemma_pointed_proceeds(
    opts: Options,
    addr: u32,
    rx: RxView,
    ctrl: HostCtrl,
    replies: Seq<Reply>,
)
    requires
        addr <= MAX_RAM_BASE,
        registers_apart(addr),
    ensures
        next_proceeds(opts, addr, rx, ctrl, RxStageView::Polling, replies),
{
    let words = pointer_words(opts, replies, 0);
    let reports = pointer_reports(BTSDIO_OFFSET_BT2HOST_IN, words);
    let reads = ring_reads(rx_base(addr), rx.pointer, 4);
    let step = pointed(opts, addr, rx, ctrl, words);
    assert(calm(reports));
    assert(calm(reads));
    assert(calm(reports + reads));
    lemma_calm_unseen(addr, step.acts);
    assert(Seq::<Event>::empty() + Seq::<Event>::empty() =~= seq![]);
    assert(proceeds(opts, addr, rx, ctrl, RxStageView::Polling, step));
    reveal(next_proceeds);
}

proof fn lemma_framed_proceeds(
    opts: Options,
    addr: u32,
    rx: RxView,
    ctrl: HostCtrl,
    available: u32,
    replies: Seq<Reply>,
)
    requires
        addr <= MAX_RAM_BASE,
        registers_apart(addr),
    ensures
        next_proceeds(opts, addr, rx, ctrl, RxStageView::ReadingHeader { available }, replies),
{
    let stage = RxStageView::ReadingHeader { available };
    let header = joined(replies);
    let reads = ring_reads(rx_base(addr), ring_moved(rx.pointer, 4), padded_len(header_len(header)));
    let step = framed(addr, rx, ctrl, available, header);
    assert(calm(reads));
    assert(calm(seq![ActionView::ReserveRx] + reads));
    lemma_calm_unseen(addr, step.acts);
    assert(Seq::<Event>::empty() + Seq::<Event>::empty() =~= seq![]);
    assert(proceeds(opts, addr, rx, ctrl, stage, step));
    reveal(next_proceeds);
}

proof fn lemma_stages_proceed(
    opts: Options,
    addr: u32,
    rx: RxView,
    ctrl: HostCtrl,
    stage: RxStageView,
    replies: Seq<Reply>,
)
    requires
        addr <= MAX_RAM_BASE,
        registers_apart(addr),
        ready(opts, stage),
        !(stage is Checking || stage is Done || stage is Failed),
    ensures
        next_proceeds(opts, addr, rx, ctrl, stage, replies),
{
    match stage {
        RxStageView::Polling => {
            lemma_pointed_proceeds(opts, addr, rx, ctrl, replies);
        },
        RxStageView::ReadingHeader { available } => {
            lemma_framed_proceeds(opts, addr, rx, ctrl, available, replies);
        },
        RxStageView::ReadingPayload { kind, len } => {
            lemma_payload_proceeds(opts, addr, rx, ctrl, kind, len, replies);
        },
        RxStageView::ReadingTwice(packet) => {
            lemma_compared_proceeds(opts, addr, rx, ctrl, packet, replies);
        },
        RxStageView::Differing { packet, diff } => {
            lemma_difference_proceeds(opts, addr, rx, ctrl, packet, diff, replies);
        },
        RxStageView::Damaged { packet, hit } => {
            lemma_damage_proceeds(opts, addr, rx, ctrl, packet, hit, replies);
        },
        RxStageView::Probing { packet, byte } => {
            lemma_probed_proceeds(opts, addr, rx, ctrl, packet, byte, replies);
        },
        RxStageView::Publishing { packet, write } => {
            lemma_published_proceeds(opts, addr, rx, ctrl, packet, write, replies);
        },
        RxStageView::Signalling(update) => {
            lemma_signalling_proceeds(opts, addr, rx, ctrl, update, replies);
        },
        _ => {},
    }
}

/// The first look at the status clears the interrupt.
proof fn lemma_cleared(
    opts: Options,
    addr: u32,
    rx: RxView,
    ctrl: HostCtrl,
    status: u32,
    replies: Seq<Reply>,
)
    requires
        status & I_HMB_FC_CHANGE != 0,
        word_of(replies[0]) == status,
    ensures
        ({
            let step = rx_next(opts, addr, rx, ctrl, RxStageView::Checking, replies);
            &&& step.stage is Polling
            &&& step.rx == rx
            &&& step.ctrl == ctrl
            &&& trace(addr, step.acts) == seq![Event::Cleared(status & I_HMB_FC_CHANGE)]
        }),
{
    let step = checked(opts, addr, rx, ctrl, status);
    let asked = ask_pointer(opts, addr, rx, ctrl);
    let clear = ActionView::Write32 {
        addr: int_status_addr(),
        value: status & I_HMB_FC_CHANGE,
    };
    assert(calm(asked.acts));
    lemma_calm_unseen(addr, asked.acts);
    lemma_one_seen(addr, clear);
    law_trace_in_turn(addr, seq![clear], asked.acts);
    assert(trace(addr, step.acts) =~= seq![Event::Cleared(status & I_HMB_FC_CHANGE)]);
}

/// What holds after some rounds of an interrupt.
spec fn in_turn(
    opts: Options,
    addr: u32,
    rx: RxView,
    ctrl: HostCtrl,
    status: u32,
    run: RxStep,
) -> bool {
    let all = trace(addr, run.acts) + tail(run.stage);
    let later = all.skip(1);
    let open = if between(run.stage) {
        0nat
    } else {
        1
    };
    run.stage is Failed || {
        &&& ready(opts, run.stage)
        &&& !(run.stage is Checking)
        &&& all.len() > 0
        &&& all[0] == Event::Cleared(status & I_HMB_FC_CHANGE)
        &&& each_answered(handed(later), later)
        &&& raised(opts, run.ctrl.cache, due_interrupts(run.stage)) == raised(
            opts,
            ctrl.cache,
            handed(later).len() + open,
        )
        &&& between(run.stage) ==> run.rx.pointer == read_up_to(later, rx.pointer)
    }
}

/// One more round of an interrupt.
proof fn lemma_one_more_round(
    opts: Options,
    addr: u32,
    rx: RxView,
    ctrl: HostCtrl,
    status: u32,
    run: RxStep,
    step: RxStep,
)
    requires
        in_turn(opts, addr, rx, ctrl, status, run),
        !(run.stage is Done || run.stage is Failed),
        proceeds(opts, addr, run.rx, run.ctrl, run.stage, step),
    ensures
        in_turn(opts, addr, rx, ctrl, status, step.after(run.acts)),
{
    let whole = step.after(run.acts);
    law_trace_in_turn(addr, run.acts, step.acts);
    let before = trace(addr, run.acts);
    let seen = trace(addr, step.acts) + tail(step.stage);
    let all = before + tail(run.stage);
    let later = all.skip(1);
    let all_then = trace(addr, whole.acts) + tail(whole.stage);
    if !(step.stage is Failed) {
        assert(all_then =~= before + seen);
        if between(run.stage) {
            assert(all_then =~= all);
            if !between(step.stage) {
                lemma_raised_in_turn(opts, ctrl.cache, handed(later).len(), 1);
                assert(raised(opts, run.ctrl.cache, 0) == run.ctrl.cache);
            }
        } else {
            assert(all =~= before);
            if between(step.stage) {
                lemma_one_more(later, seen, step.rx.pointer);
                assert(all_then.skip(1) =~= later + seen);
                assert((later + seen)[(later + seen).len() - 3] == seen[0]);
            } else {
                assert(all_then =~= all);
            }
        }
    }
}

proof fn lemma_rounds(
    opts: Options,
    addr: u32,
    rx: RxView,
    ctrl: HostCtrl,
    status: u32,
    rounds: Seq<Seq<Reply>>,
)
    requires
        addr <= MAX_RAM_BASE,
        registers_apart(addr),
        status & I_HMB_FC_CHANGE != 0,
        rounds.len() > 0,
        word_of(rounds[0][0]) == status,
    ensures
        in_turn(
            opts,
            addr,
            rx,
            ctrl,
            status,
            rx_run(opts, addr, rx, ctrl, RxStageView::Checking, rounds),
        ),
    decreases rounds.len(),
{
    let start = RxStageView::Checking;
    let before = rx_run(opts, addr, rx, ctrl, start, rounds.drop_last());
    let step = rx_next(opts, addr, before.rx, before.ctrl, before.stage, rounds.last());
    let run = step.after(before.acts);
    if rounds.len() == 1 {
        lemma_cleared(opts, addr, rx, ctrl, status, rounds.last());
        assert(run.acts =~= step.acts);
        let all = trace(addr, run.acts) + tail(run.stage);
        assert(all =~= seq![Event::Cleared(status & I_HMB_FC_CHANGE)]);
        assert(all.skip(1) =~= seq![]);
        assert(handed(all.skip(1)) =~= seq![]);
    } else {
        lemma_rounds(opts, addr, rx, ctrl, status, rounds.drop_last());
        if before.stage is Done || before.stage is Failed {
            assert(step.acts =~= seq![]);
            assert(run.acts =~= before.acts);
        } else {
            lemma_stages_proceed(
                opts,
                addr,
                before.rx,
                before.ctrl,
                before.stage,
                rounds.last(),
            );
            reveal(next_proceeds);
            lemma_one_more_round(opts, addr, rx, ctrl, status, before, step);
        }
    }
}

/// What an interrupt leads to, whatever the replies: also where the Bluetooth core
/// adds packets while others are read.
///
/// Its status is cleared once and first. Then each packet that is handed over has
/// been acknowledged with one write of the read pointer before, and is answered
/// with one write of the host control register after, one packet after the other;
/// nothing else is seen. The cached value of that register is then the one after so
/// many interrupts, and the read pointer is the one that was acknowledged last.
pub proof fn law_packets_in_turn(
    opts: Options,
    addr: u32,
    rx: RxView,
    ctrl: HostCtrl,
    status: u32,
    rounds: Seq<Seq<Reply>>,
)
    requires
        addr <= MAX_RAM_BASE,
        registers_apart(addr),
        status & I_HMB_FC_CHANGE != 0,
        rounds.len() > 0,
        word_of(rounds[0][0]) == status,
    ensures
        ({
            let run = rx_run(opts, addr, rx, ctrl, RxStageView::Checking, rounds);
            let seen = trace(addr, run.acts);
            let packets = submitted(run.acts);
            let odd = packets.len() % 2 == 1;
            run.stage is Done ==> {
                &&& seen.len() == 1 + 3 * packets.len()
                &&& seen[0] == Event::Cleared(status & I_HMB_FC_CHANGE)
                &&& each_answered(packets, seen.skip(1))
                &&& run.ctrl.cache == raised(opts, ctrl.cache, packets.len())
                &&& !opts.intr_set ==> run.ctrl.cache == ctrl.cache ^ if odd {
                    BTSDIO_REG_DATA_VALID_BITMASK
                } else {
                    0
                }
                &&& run.rx.pointer == read_up_to(seen.skip(1), rx.pointer)
            }
        }),
{
    let run = rx_run(opts, addr, rx, ctrl, RxStageView::Checking, rounds);
    lemma_rounds(opts, addr, rx, ctrl, status, rounds);
    if run.stage is Done {
        lemma_end(opts, addr, rx, ctrl, status, run);
    }
}

/// What holds at the end of an interrupt.
proof fn lemma_end(
    opts: Options,
    addr: u32,
    rx: RxView,
    ctrl: HostCtrl,
    status: u32,
    run: RxStep,
)
    requires
        in_turn(opts, addr, rx, ctrl, status, run),
        run.stage is Done,
    ensures
        ({
            let seen = trace(addr, run.acts);
            let packets = submitted(run.acts);
            let odd = packets.len() % 2 == 1;
            &&& seen.len() == 1 + 3 * packets.len()
            &&& seen[0] == Event::Cleared(status & I_HMB_FC_CHANGE)
            &&& each_answered(packets, seen.skip(1))
            &&& run.ctrl.cache == raised(opts, ctrl.cache, packets.len())
            &&& !opts.intr_set ==> run.ctrl.cache == ctrl.cache ^ if odd {
                BTSDIO_REG_DATA_VALID_BITMASK
            } else {
                0
            }
            &&& run.rx.pointer == read_up_to(seen.skip(1), rx.pointer)
        }),
{
    let seen = trace(addr, run.acts);
    let later = seen.skip(1);
    assert(seen + tail(run.stage) =~= seen);
    law_submitted_is_seen(addr, run.acts);
    let first = seen.take(1);
    assert(seen =~= first + later);
    lemma_handed_in_turn(first, later);
    assert(first.drop_last() =~= seq![]);
    reveal_with_fuel(handed, 2);
    assert(handed(first) =~= seq![]);
    assert(handed(seen) =~= handed(later));
    assert(raised(opts, run.ctrl.cache, 0) == run.ctrl.cache);
    law_raised(opts, ctrl.cache, submitted(run.acts).len());
}

/// Where no interrupt was raised, nothing is done.
pub proof fn law_nothing_raised(
    opts: Options,
    addr: u32,
    rx: RxView,
    ctrl: HostCtrl,
    rounds: Seq<Seq<Reply>>,
)
    requires
        rounds.len() > 0,
        word_of(rounds[0][0]) & I_HMB_FC_CHANGE == 0,
    ensures
        rx_run(opts, addr, rx, ctrl, RxStageView::Checking, rounds) == (RxStep {
            rx,
            ctrl,
            stage: RxStageView::Done,
            acts: seq![],
        }),
    decreases rounds.len(),
{
    let start = RxStageView::Checking;
    let before = rx_run(opts, addr, rx, ctrl, start, rounds.drop_last());
    let step = rx_next(opts, addr, before.rx, before.ctrl, before.stage, rounds.last());
    if rounds.len() > 1 {
        law_nothing_raised(opts, addr, rx, ctrl, rounds.drop_last());
    }
    assert(before.acts + step.acts =~= seq![]);
}

} // verus!
