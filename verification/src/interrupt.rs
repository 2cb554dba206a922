//! What one interrupt leads to: the interrupt is cleared, and each packet in the
//! ring is acknowledged, handed over and answered with an interrupt, in this
//! order, until the ring is empty.

use vstd::arithmetic::div_mod::*;
use vstd::prelude::*;

use crate::action::{byte_of, optional, word_of, words_of, ActionView, Reply};
use crate::consts::{
    BTSDIO_FWBUF_SIZE, BTSDIO_OFFSET_BT2HOST_IN, BTSDIO_OFFSET_BT2HOST_OUT,
    BTSDIO_REG_DATA_VALID_BITMASK, BT_HCI_MTU, HOST_CTRL_REG_ADDR, I_HMB_FC_CHANGE, MAX_RAM_BASE,
};
use crate::delivery::{
    consistent, law_nothing_is_lost, law_submitted_in_turn, lemma_used_less, owed, packets_in_ring,
    rx_run, submitted, truthful, truthful_run,
};
use crate::diff::Diff;
use crate::footprint::registers_apart;
use crate::host_ctrl::{
    law_change, law_change_arrives, signal_change, update_begin, update_next, update_write,
    HostCtrl, HostCtrlChange, HostCtrlUpdate, UpdateStage,
};
use crate::memory::Memory;
use crate::options::Options;
use crate::passage::{
    calm, held, lemma_compared_onward, lemma_damage_onward, lemma_difference_onward,
    lemma_probed_onward, lemma_received_onward, onward, pace,
};
use crate::pointer::{pointer_reports, pointer_words, PointerStage, PointerWrite};
use crate::probe::ProbedByte;
use crate::report::SamplePhase;
use crate::ring::{
    header_len, joined, padded_len, ring_loaded, ring_moved, ring_pointer, ring_reads, ring_used,
};
use crate::rx::{
    ask_pointer, checked, compared, damage_shown, difference_shown, finish, framed, int_status_addr,
    out_write, pointed, probed, published, received, rx_base, rx_next, signalled, signalling,
    submit, RxPacketView, RxStageView, RxStep, RxView, BT_RING_RX_INTR_DELAY_US,
    BT_RING_RX_OUT_DELAY_US,
};
use crate::sentinel::SentinelHit;

verus! {

/// What the Bluetooth core or the host sees of an action.
pub enum Event {
    /// These bits of the interrupt status were cleared.
    Cleared(u32),
    /// The host's read pointer was set to this.
    Acknowledged(u32),
    /// This packet was handed over to the host.
    HandedOver(Seq<u8>),
    /// The host control register was written.
    Raised,
}

/// What is seen of an action.
pub open spec fn event(addr: u32, action: ActionView) -> Option<Event> {
    match action {
        ActionView::Write32 { addr: at, value } => {
            if at == int_status_addr() {
                Some(Event::Cleared(value))
            } else if at == HOST_CTRL_REG_ADDR {
                Some(Event::Raised)
            } else if at == addr + BTSDIO_OFFSET_BT2HOST_OUT {
                Some(Event::Acknowledged(value))
            } else {
                None
            }
        },
        ActionView::SubmitRx { data } => Some(Event::HandedOver(data)),
        _ => None,
    }
}

/// What is seen of a list of actions, in order.
pub open spec fn trace(addr: u32, acts: Seq<ActionView>) -> Seq<Event>
    decreases acts.len(),
{
    if acts.len() == 0 {
        seq![]
    } else {
        let before = trace(addr, acts.drop_last());
        match event(addr, acts.last()) {
            Some(seen) => before.push(seen),
            None => before,
        }
    }
}

/// What is seen of two lists of actions, one after the other.
pub proof fn law_trace_in_turn(addr: u32, a: Seq<ActionView>, b: Seq<ActionView>)
    ensures
        trace(addr, a + b) == trace(addr, a) + trace(addr, b),
    decreases b.len(),
{
    if b.len() == 0 {
        assert(a + b =~= a);
        assert(trace(addr, a) + trace(addr, b) =~= trace(addr, a));
    } else {
        law_trace_in_turn(addr, a, b.drop_last());
        assert((a + b).drop_last() =~= a + b.drop_last());
        assert((a + b).last() == b.last());
        assert(trace(addr, a + b) =~= trace(addr, a) + trace(addr, b));
    }
}

/// Actions that write nothing and hand nothing over are not seen.
pub proof fn lemma_calm_unseen(addr: u32, acts: Seq<ActionView>)
    requires
        calm(acts),
    ensures
        trace(addr, acts) == Seq::<Event>::empty(),
    decreases acts.len(),
{
    if acts.len() > 0 {
        let last = acts[acts.len() - 1];
        assert(!(last is Write32 || last is WriteBlock || last is SubmitRx));
        assert(calm(acts.drop_last()));
        lemma_calm_unseen(addr, acts.drop_last());
    }
}

/// What is seen of one action.
pub proof fn lemma_one_seen(addr: u32, action: ActionView)
    ensures
        trace(addr, seq![action]) == match event(addr, action) {
            Some(seen) => seq![seen],
            None => seq![],
        },
{
    let acts = seq![action];
    assert(acts.drop_last() =~= seq![]);
    reveal_with_fuel(trace, 2);
    assert(trace(addr, seq![]) =~= seq![]);
}

/// What is to be seen of the whole packets in the ring at `base`, in the `n` bytes
/// from position `p` on: each is acknowledged by its end, handed over and answered
/// with an interrupt.
pub open spec fn events_in_ring(mem: Memory, base: int, p: u32, n: int) -> Seq<Event>
    decreases n,
{
    let header = ring_loaded(mem, base, p as int, 4);
    let len = header_len(header);
    let rounded = padded_len(len);
    if n < 4 + rounded || rounded >= BT_HCI_MTU || n < 4 {
        seq![]
    } else {
        let start = ring_moved(p, 4);
        let end = ring_moved(start, rounded);
        let body = ring_loaded(mem, base, start as int, rounded as nat).take(len);
        answer(end, seq![header[3]] + body) + events_in_ring(mem, base, end, n - 4 - rounded)
    }
}

/// What is to be seen of one packet that ends at `end`.
pub open spec fn answer(end: u32, packet: Seq<u8>) -> Seq<Event> {
    seq![Event::Acknowledged(end), Event::HandedOver(packet), Event::Raised]
}

/// Whether the `n` bytes in the ring at `base` from position `p` on are nothing but
/// whole packets that fit their buffers.
pub open spec fn whole(mem: Memory, base: int, p: u32, n: int) -> bool
    decreases n,
{
    let rounded = padded_len(header_len(ring_loaded(mem, base, p as int, 4)));
    n == 0 || {
        &&& 4 + rounded <= n
        &&& rounded < BT_HCI_MTU
        &&& 4 <= n
        &&& whole(mem, base, ring_moved(ring_moved(p, 4), rounded), n - 4 - rounded)
    }
}

/// Whether the three events from `j` on acknowledge a packet, hand it over and
/// raise an interrupt.
pub open spec fn answered_at(events: Seq<Event>, j: int, packet: Seq<u8>) -> bool {
    &&& events[j] is Acknowledged
    &&& events[j + 1] == Event::HandedOver(packet)
    &&& events[j + 2] is Raised
}

/// Whether `events` show that each packet is acknowledged once, handed over once
/// and answered with one interrupt, in this order, one packet after the other.
pub open spec fn each_answered(packets: Seq<Seq<u8>>, events: Seq<Event>) -> bool {
    &&& events.len() == 3 * packets.len()
    &&& forall|i: int|
        0 <= i < packets.len() ==> answered_at(events, 3 * i, #[trigger] packets[i])
}

proof fn lemma_one_more_answered(
    end: u32,
    packet: Seq<u8>,
    packets: Seq<Seq<u8>>,
    events: Seq<Event>,
)
    requires
        each_answered(packets, events),
    ensures
        each_answered(seq![packet] + packets, answer(end, packet) + events),
{
    let more = seq![packet] + packets;
    let longer = answer(end, packet) + events;
    assert(longer.len() == 3 * more.len());
    assert forall|i: int| 0 <= i < more.len() implies answered_at(
        longer,
        3 * i,
        #[trigger] more[i],
    ) by {
        if i == 0 {
            assert(longer[0] == answer(end, packet)[0]);
            assert(longer[1] == answer(end, packet)[1]);
            assert(longer[2] == answer(end, packet)[2]);
        } else {
            let k = i - 1;
            assert(answered_at(events, 3 * k, packets[k]));
            assert(more[i] == packets[k]);
            assert(longer[3 * k + 3] == events[3 * k]);
            assert(longer[3 * k + 4] == events[3 * k + 1]);
            assert(longer[3 * k + 5] == events[3 * k + 2]);
        }
    }
}

/// Each packet in the ring is acknowledged once, handed over once and answered
/// with one interrupt, in this order, and the packets come in the order in which
/// they stand in the ring.
pub proof fn law_each_packet_answered(mem: Memory, base: int, p: u32, n: int)
    ensures
        each_answered(packets_in_ring(mem, base, p, n), events_in_ring(mem, base, p, n)),
    decreases n,
{
    let header = ring_loaded(mem, base, p as int, 4);
    let len = header_len(header);
    let rounded = padded_len(len);
    if !(n < 4 + rounded || rounded >= BT_HCI_MTU || n < 4) {
        let start = ring_moved(p, 4);
        let end = ring_moved(start, rounded);
        let body = ring_loaded(mem, base, start as int, rounded as nat).take(len);
        law_each_packet_answered(mem, base, end, n - 4 - rounded);
        lemma_one_more_answered(
            end,
            seq![header[3]] + body,
            packets_in_ring(mem, base, end, n - 4 - rounded),
            events_in_ring(mem, base, end, n - 4 - rounded),
        );
    }
}

/// A register value after `n` interrupts have been raised.
pub open spec fn raised(opts: Options, value: u32, n: nat) -> u32
    decreases n,
{
    if n == 0 {
        value
    } else {
        raised(opts, signal_change(opts).applied(value), (n - 1) as nat)
    }
}

/// Interrupts that toggle the data-valid bit leave it as it was after an even
/// number of them and inverted after an odd one; interrupts that set it leave it
/// set. No other bit changes.
pub proof fn law_raised(opts: Options, value: u32, n: nat)
    ensures
        !opts.intr_set ==> raised(opts, value, n) == value ^ if n % 2 == 1 {
            BTSDIO_REG_DATA_VALID_BITMASK
        } else {
            0
        },
        opts.intr_set && n > 0 ==> raised(opts, value, n) == value | BTSDIO_REG_DATA_VALID_BITMASK,
    decreases n,
{
    let bit = BTSDIO_REG_DATA_VALID_BITMASK;
    reveal_with_fuel(raised, 2);
    assert(value ^ 0 == value) by (bit_vector);
    if n > 0 {
        let next = signal_change(opts).applied(value);
        law_raised(opts, next, (n - 1) as nat);
        law_change(signal_change(opts), value);
        assert(next ^ 0 == next) by (bit_vector);
        assert(opts.intr_set ==> signal_change(opts).applied(next) == next | bit);
    }
}

/// Raising interrupts twice is raising the sum.
pub proof fn lemma_raised_in_turn(opts: Options, value: u32, a: nat, b: nat)
    ensures
        raised(opts, value, a + b) == raised(opts, raised(opts, value, a), b),
    decreases a,
{
    if a > 0 {
        lemma_raised_in_turn(opts, signal_change(opts).applied(value), (a - 1) as nat, b);
    }
}

/// Where the packet ends that is being dealt with.
pub open spec fn behind(rx: RxView, stage: RxStageView) -> u32 {
    match stage {
        RxStageView::ReadingPayload { kind, len } => ring_moved(rx.pointer, padded_len(len as int)),
        _ => match held(stage) {
            Some(packet) => ring_moved(rx.pointer, packet.payload.len() as int),
            None => rx.pointer,
        },
    }
}

/// What is still to be seen of the interrupt, whose status is `status`, and of the
/// packet that is being dealt with.
pub open spec fn due(addr: u32, mem: Memory, status: u32, rx: RxView, stage: RxStageView) -> Seq<
    Event,
> {
    match stage {
        RxStageView::Checking => seq![Event::Cleared(status & I_HMB_FC_CHANGE)],
        RxStageView::ReadingPayload { kind, len } => {
            let rounded = padded_len(len as int) as nat;
            let body = ring_loaded(mem, rx_base(addr) as int, rx.pointer as int, rounded);
            answer(behind(rx, stage), seq![kind] + body.take(len as int))
        },
        RxStageView::Publishing { packet, write } => seq![
            Event::HandedOver(packet.bytes()),
            Event::Raised,
        ],
        RxStageView::Signalling(update) => if update.stage is Reading {
            seq![Event::Raised]
        } else {
            seq![]
        },
        _ => match held(stage) {
            Some(packet) => answer(behind(rx, stage), packet.bytes()),
            None => seq![],
        },
    }
}

/// How many interrupts are still to be raised for the packet that is being dealt
/// with.
pub open spec fn due_interrupts(stage: RxStageView) -> nat {
    match stage {
        RxStageView::ReadingPayload { kind, len } => 1,
        RxStageView::Publishing { packet, write } => 1,
        RxStageView::Signalling(update) => if update.stage is Reading {
            1
        } else {
            0
        },
        _ => if held(stage) is Some {
            1
        } else {
            0
        },
    }
}

/// Whether the parts of a stage that are in progress are what receiving packets
/// starts.
pub open spec fn ready(opts: Options, stage: RxStageView) -> bool {
    match stage {
        RxStageView::Publishing { packet, write } => write.stage is Verifying,
        RxStageView::Signalling(update) => {
            update.running() && update.change == signal_change(opts)
        },
        _ => true,
    }
}

/// Whether a step deals with a packet that ends at `end`, and shows the first of
/// `events` and no other. It fails only under strict checks.
pub open spec fn gone(
    opts: Options,
    addr: u32,
    end: u32,
    cache: u32,
    before: int,
    events: Seq<Event>,
    interrupts: nat,
    step: RxStep,
) -> bool {
    &&& !opts.strict_checks ==> !(step.stage is Failed)
    &&& step.stage is Failed || {
        &&& ready(opts, step.stage)
        &&& step.stage is Publishing || step.stage is Signalling || step.stage is Polling || held(
            step.stage,
        ) is Some
        &&& behind(step.rx, step.stage) == end
        &&& forall|mem: Memory, status: u32|
            trace(addr, step.acts) + #[trigger] due(addr, mem, status, step.rx, step.stage)
                == events
        &&& pace(step.stage) < before
        &&& raised(opts, step.ctrl.cache, due_interrupts(step.stage)) == raised(
            opts,
            cache,
            interrupts,
        )
    }
}

proof fn lemma_write_seen(opts: Options, addr: u32, ctrl: HostCtrl, change: HostCtrlChange)
    ensures
        ({
            let step = update_write(opts, ctrl, change);
            !(step.stage is Failed) ==> trace(addr, step.acts) == seq![Event::Raised]
        }),
{
    let step = update_write(opts, ctrl, change);
    if !(step.stage is Failed) {
        let write = ActionView::Write32 {
            addr: HOST_CTRL_REG_ADDR,
            value: change.applied(ctrl.cache),
        };
        let reads = step.acts.skip(1);
        assert(step.acts =~= seq![write] + reads);
        assert(calm(reads));
        lemma_calm_unseen(addr, reads);
        lemma_one_seen(addr, write);
        law_trace_in_turn(addr, seq![write], reads);
        assert(seq![Event::Raised] + Seq::<Event>::empty() =~= seq![Event::Raised]);
    }
}

/// What is seen of the raising of an interrupt.
proof fn lemma_update_seen(
    opts: Options,
    addr: u32,
    ctrl: HostCtrl,
    update: HostCtrlUpdate,
    words: Seq<u32>,
)
    ensures
        ({
            let step = update_begin(opts, ctrl, update.change);
            let seen = trace(addr, step.acts);
            &&& step.stage is Reading ==> seen == Seq::<Event>::empty()
            &&& step.stage is Written || step.stage is Done ==> seen == seq![Event::Raised]
        }),
        ({
            let step = update_next(opts, ctrl, update, words);
            let seen = trace(addr, step.acts);
            &&& update.stage is Reading && !(step.stage is Failed) ==> {
                &&& seen == seq![Event::Raised]
                &&& step.stage is Written || step.stage is Done
            }
            &&& update.stage is Written ==> {
                &&& seen == Seq::<Event>::empty()
                &&& step.stage is Done || step.stage is Failed || step.stage is Written
                &&& step.stage is Written ==> {
                    &&& update.stage == (UpdateStage::Written { sample: true })
                    &&& step.stage == (UpdateStage::Written { sample: false })
                }
            }
        }),
{
    let counted = if opts.host_ctrl_sample {
        ctrl.counted()
    } else {
        ctrl
    };
    let begin = update_begin(opts, ctrl, update.change);
    lemma_write_seen(opts, addr, counted, update.change);
    if begin.stage is Reading {
        assert(calm(begin.acts));
        lemma_calm_unseen(addr, begin.acts);
    }
    let next = update_next(opts, ctrl, update, words);
    match update.stage {
        UpdateStage::Reading { sample } => {
            if sample {
                let sampled = ctrl.sampled(words.last());
                let reports = ctrl.sample_reports(SamplePhase::Read, words.last());
                let write = update_write(opts, sampled, update.change);
                assert(calm(reports));
                lemma_calm_unseen(addr, reports);
                lemma_write_seen(opts, addr, sampled, update.change);
                law_trace_in_turn(addr, reports, write.acts);
                assert(Seq::<Event>::empty() + seq![Event::Raised] =~= seq![Event::Raised]);
            } else {
                lemma_write_seen(opts, addr, ctrl, update.change);
            }
        },
        UpdateStage::Written { sample } => {
            assert(calm(next.acts));
            lemma_calm_unseen(addr, next.acts);
        },
        _ => {},
    }
}

/// A packet that is handed over is answered with an interrupt.
proof fn lemma_submit_gone(
    opts: Options,
    addr: u32,
    rx: RxView,
    ctrl: HostCtrl,
    packet: RxPacketView,
)
    ensures
        gone(
            opts,
            addr,
            rx.pointer,
            ctrl.cache,
            6,
            seq![Event::HandedOver(packet.bytes()), Event::Raised],
            1,
            submit(opts, addr, rx, ctrl, packet),
        ),
{
    let change = signal_change(opts);
    let step = update_begin(opts, ctrl, change);
    let update = HostCtrlUpdate { change, stage: step.stage };
    let next = signalled(opts, addr, rx, step.ctrl, update);
    let whole = submit(opts, addr, rx, ctrl, packet);
    let hand = ActionView::SubmitRx { data: packet.bytes() };
    let delay = optional(
        opts.rx_intr_delay,
        ActionView::Delay { micros: BT_RING_RX_INTR_DELAY_US },
    );
    if !(whole.stage is Failed) {
        lemma_update_seen(opts, addr, ctrl, update, seq![]);
        law_change_arrives(opts, ctrl, update, seq![]);
        assert(calm(delay));
        assert(calm(next.acts));
        lemma_calm_unseen(addr, delay);
        lemma_calm_unseen(addr, next.acts);
        lemma_one_seen(addr, hand);
        law_trace_in_turn(addr, seq![hand] + delay + step.acts, next.acts);
        law_trace_in_turn(addr, seq![hand] + delay, step.acts);
        law_trace_in_turn(addr, seq![hand], delay);
        reveal_with_fuel(raised, 2);
        let events = seq![Event::HandedOver(packet.bytes()), Event::Raised];
        assert forall|mem: Memory, status: u32|
            trace(addr, whole.acts) + #[trigger] due(addr, mem, status, whole.rx, whole.stage)
                == events by {
            assert(trace(addr, whole.acts) + due(addr, mem, status, whole.rx, whole.stage)
                =~= events);
        }
    }
}

proof fn lemma_gone_after(
    opts: Options,
    addr: u32,
    end: u32,
    cache: u32,
    before: int,
    events: Seq<Event>,
    interrupts: nat,
    step: RxStep,
    first: Seq<ActionView>,
)
    requires
        gone(opts, addr, end, cache, before, events, interrupts, step),
    ensures
        gone(
            opts,
            addr,
            end,
            cache,
            before,
            trace(addr, first) + events,
            interrupts,
            step.after(first),
        ),
{
    let whole = step.after(first);
    law_trace_in_turn(addr, first, step.acts);
    if !(step.stage is Failed) {
        assert forall|mem: Memory, status: u32|
            trace(addr, whole.acts) + #[trigger] due(addr, mem, status, whole.rx, whole.stage)
                == trace(addr, first) + events by {
            let more = due(addr, mem, status, step.rx, step.stage);
            assert(trace(addr, step.acts) + more == events);
            assert(trace(addr, first) + trace(addr, step.acts) + more =~= trace(addr, first) + (
            trace(addr, step.acts) + more));
        }
    }
}

/// A packet whose room is given back is acknowledged, handed over and answered.
proof fn lemma_finish_gone(
    opts: Options,
    addr: u32,
    rx: RxView,
    ctrl: HostCtrl,
    packet: RxPacketView,
)
    requires
        addr <= MAX_RAM_BASE,
        registers_apart(addr),
    ensures
        ({
            let end = ring_moved(rx.pointer, packet.payload.len() as int);
            gone(
                opts,
                addr,
                end,
                ctrl.cache,
                10,
                answer(end, packet.bytes()),
                1,
                finish(opts, addr, rx, ctrl, packet),
            )
        }),
{
    let end = ring_moved(rx.pointer, packet.payload.len() as int);
    let moved = RxView { pointer: end, ..rx };
    let step = finish(opts, addr, rx, ctrl, packet);
    let write = out_write(opts, addr, end);
    let delay = optional(
        opts.rx_out_delay,
        ActionView::Delay { micros: BT_RING_RX_OUT_DELAY_US },
    );
    let all = answer(end, packet.bytes());
    assert(calm(delay));
    lemma_calm_unseen(addr, delay);
    lemma_one_seen(addr, write.write());
    assert(event(addr, write.write()) == Some(Event::Acknowledged(end)));
    law_trace_in_turn(addr, delay, seq![write.write()]);
    let seen = seq![Event::Acknowledged(end)];
    assert(trace(addr, delay + seq![write.write()]) =~= seen);
    if opts.pointer_write_readback {
        assert(step.acts =~= delay + seq![write.write()] + seq![write.read()]);
        assert(calm(seq![write.read()]));
        lemma_calm_unseen(addr, seq![write.read()]);
        law_trace_in_turn(addr, delay + seq![write.write()], seq![write.read()]);
        assert forall|mem: Memory, status: u32|
            trace(addr, step.acts) + #[trigger] due(addr, mem, status, step.rx, step.stage)
                == all by {
            assert(trace(addr, step.acts) + due(addr, mem, status, step.rx, step.stage) =~= all);
        }
    } else {
        let next = submit(opts, addr, moved, ctrl, packet);
        lemma_submit_gone(opts, addr, moved, ctrl, packet);
        let later = seq![Event::HandedOver(packet.bytes()), Event::Raised];
        lemma_gone_after(
            opts,
            addr,
            end,
            ctrl.cache,
            6,
            later,
            1,
            next,
            delay + seq![write.write()],
        );
        assert(seen + later =~= all);
    }
}

/// A packet that goes on is acknowledged, handed over and answered.
pub proof fn lemma_onward_gone(
    opts: Options,
    addr: u32,
    n: int,
    pointer: u32,
    ctrl: HostCtrl,
    packet: RxPacketView,
    before: int,
    step: RxStep,
    kept: RxView,
    logs: Seq<ActionView>,
)
    requires
        addr <= MAX_RAM_BASE,
        registers_apart(addr),
        before >= 10,
        onward(opts, addr, n, pointer, ctrl, packet, before, step, kept, logs),
    ensures
        ({
            let end = ring_moved(pointer, packet.payload.len() as int);
            gone(
                opts,
                addr,
                end,
                ctrl.cache,
                before,
                answer(end, packet.bytes()),
                1,
                step,
            )
        }),
{
    let end = ring_moved(pointer, packet.payload.len() as int);
    let all = answer(end, packet.bytes());
    if held(step.stage) == Some(packet) && calm(step.acts) && step.rx.pointer == pointer
        && step.ctrl == ctrl && pace(step.stage) < before {
        lemma_calm_unseen(addr, step.acts);
        assert forall|mem: Memory, status: u32|
            trace(addr, step.acts) + #[trigger] due(addr, mem, status, step.rx, step.stage)
                == all by {
            assert(trace(addr, step.acts) + due(addr, mem, status, step.rx, step.stage) =~= all);
        }
    } else {
        let last = finish(opts, addr, kept, ctrl, packet);
        lemma_finish_gone(opts, addr, kept, ctrl, packet);
        lemma_calm_unseen(addr, logs);
        lemma_gone_after(opts, addr, end, ctrl.cache, 10, all, 1, last, logs);
        assert(Seq::<Event>::empty() + all =~= all);
        assert(step == last.after(logs));
    }
}

/// A packet whose acknowledgement is read back is handed over and answered.
pub proof fn lemma_published_gone(
    opts: Options,
    addr: u32,
    rx: RxView,
    ctrl: HostCtrl,
    packet: RxPacketView,
    write: PointerWrite,
    got: u32,
)
    requires
        write.stage is Verifying,
    ensures
        gone(
            opts,
            addr,
            rx.pointer,
            ctrl.cache,
            pace(RxStageView::Publishing { packet, write }),
            seq![Event::HandedOver(packet.bytes()), Event::Raised],
            1,
            published(opts, addr, rx, ctrl, packet, write, got),
        ),
{
    let acts = write.next_acts(opts, got);
    let before = pace(RxStageView::Publishing { packet, write });
    let all = seq![Event::HandedOver(packet.bytes()), Event::Raised];
    let step = published(opts, addr, rx, ctrl, packet, write, got);
    assert(calm(acts));
    lemma_calm_unseen(addr, acts);
    assert(Seq::<Event>::empty() + all =~= all);
    match write.next_stage(opts, got) {
        PointerStage::Done => {
            lemma_submit_gone(opts, addr, rx, ctrl, packet);
            let next = submit(opts, addr, rx, ctrl, packet);
            lemma_gone_after(opts, addr, rx.pointer, ctrl.cache, 6, all, 1, next, acts);
        },
        _ => {},
    }
}

/// The raising of an interrupt goes on.
pub proof fn lemma_signalling_gone(
    opts: Options,
    addr: u32,
    mem: Memory,
    rx: RxView,
    ctrl: HostCtrl,
    update: HostCtrlUpdate,
    words: Seq<u32>,
)
    requires
        ready(opts, RxStageView::Signalling(update)),
    ensures
        ({
            let stage = RxStageView::Signalling(update);
            gone(
                opts,
                addr,
                rx.pointer,
                ctrl.cache,
                pace(stage),
                due(addr, mem, 0, rx, stage),
                due_interrupts(stage),
                signalling(opts, addr, rx, ctrl, update, words),
            )
        }),
{
    let stage = RxStageView::Signalling(update);
    let all = due(addr, mem, 0, rx, stage);
    let first = update_next(opts, ctrl, update, words);
    let after = HostCtrlUpdate { change: update.change, stage: first.stage };
    let next = signalled(opts, addr, rx, first.ctrl, after);
    let whole = signalling(opts, addr, rx, ctrl, update, words);
    if !(whole.stage is Failed) {
        lemma_update_seen(opts, addr, ctrl, update, words);
        law_change_arrives(opts, ctrl, update, words);
        assert(calm(next.acts));
        lemma_calm_unseen(addr, next.acts);
        law_trace_in_turn(addr, first.acts, next.acts);
        reveal_with_fuel(raised, 2);
        assert forall|memory: Memory, status: u32|
            trace(addr, whole.acts) + #[trigger] due(addr, memory, status, whole.rx, whole.stage)
                == all by {
            assert(trace(addr, whole.acts) + due(addr, memory, status, whole.rx, whole.stage)
                =~= all);
        }
    }
}

/// What is still to be seen, if the Bluetooth core has written up to `write`.
pub open spec fn pending(
    addr: u32,
    mem: Memory,
    write: u32,
    status: u32,
    rx: RxView,
    stage: RxStageView,
) -> Seq<Event> {
    let at = behind(rx, stage);
    due(addr, mem, status, rx, stage) + events_in_ring(
        mem,
        rx_base(addr) as int,
        at,
        ring_used(at, write),
    )
}

/// How many packets wait behind the one that is being dealt with.
pub open spec fn waiting(
    addr: u32,
    mem: Memory,
    write: u32,
    rx: RxView,
    stage: RxStageView,
) -> nat {
    let at = behind(rx, stage);
    packets_in_ring(mem, rx_base(addr) as int, at, ring_used(at, write)).len()
}

/// How many rounds it can take until the ring is empty.
pub open spec fn rounds_left(
    addr: u32,
    mem: Memory,
    write: u32,
    rx: RxView,
    stage: RxStageView,
) -> int {
    15 * waiting(addr, mem, write, rx, stage) + pace(stage)
}

/// Whether nothing but whole packets wait behind the one that is being dealt with.
pub open spec fn only_whole(
    addr: u32,
    mem: Memory,
    write: u32,
    rx: RxView,
    stage: RxStageView,
) -> bool {
    let at = behind(rx, stage);
    whole(mem, rx_base(addr) as int, at, ring_used(at, write))
}

/// The register value once the ring is empty.
pub open spec fn final_value(
    opts: Options,
    addr: u32,
    mem: Memory,
    write: u32,
    rx: RxView,
    ctrl: HostCtrl,
    stage: RxStageView,
) -> u32 {
    raised(opts, ctrl.cache, due_interrupts(stage) + waiting(addr, mem, write, rx, stage))
}

/// Whether a step shows the first events of those that are to be seen and leaves
/// the others, and brings the end nearer.
pub open spec fn advances(
    opts: Options,
    addr: u32,
    mem: Memory,
    write: u32,
    status: u32,
    rx: RxView,
    ctrl: HostCtrl,
    stage: RxStageView,
    step: RxStep,
) -> bool {
    &&& !opts.strict_checks && only_whole(addr, mem, write, rx, stage) ==> !(step.stage is Failed)
    &&& step.stage is Failed || {
        &&& ready(opts, step.stage)
        &&& trace(addr, step.acts) + pending(addr, mem, write, status, step.rx, step.stage)
            == pending(addr, mem, write, status, rx, stage)
        &&& final_value(opts, addr, mem, write, step.rx, step.ctrl, step.stage) == final_value(
            opts,
            addr,
            mem,
            write,
            rx,
            ctrl,
            stage,
        )
        &&& rounds_left(addr, mem, write, step.rx, step.stage) < rounds_left(
            addr,
            mem,
            write,
            rx,
            stage,
        )
        &&& only_whole(addr, mem, write, rx, stage) ==> {
            &&& only_whole(addr, mem, write, step.rx, step.stage)
            &&& step.stage is Done ==> ring_used(step.rx.pointer, write) == 0
        }
    }
}

proof fn lemma_gone_advances(
    opts: Options,
    addr: u32,
    mem: Memory,
    write: u32,
    status: u32,
    rx: RxView,
    ctrl: HostCtrl,
    stage: RxStageView,
    step: RxStep,
)
    requires
        gone(
            opts,
            addr,
            behind(rx, stage),
            ctrl.cache,
            pace(stage),
            due(addr, mem, status, rx, stage),
            due_interrupts(stage),
            step,
        ),
    ensures
        advances(opts, addr, mem, write, status, rx, ctrl, stage, step),
{
    if !(step.stage is Failed) {
        let at = behind(rx, stage);
        let more = events_in_ring(mem, rx_base(addr) as int, at, ring_used(at, write));
        let later = due(addr, mem, status, step.rx, step.stage);
        assert(trace(addr, step.acts) + (later + more) =~= trace(addr, step.acts) + later + more);
        let n = waiting(addr, mem, write, rx, stage);
        lemma_raised_in_turn(opts, ctrl.cache, due_interrupts(stage), n);
        lemma_raised_in_turn(opts, step.ctrl.cache, due_interrupts(step.stage), n);
    }
}

/// Whether a step of receiving packets is one that [`advances`].
#[verifier::opaque]
spec fn next_advances(
    opts: Options,
    addr: u32,
    mem: Memory,
    write: u32,
    status: u32,
    rx: RxView,
    ctrl: HostCtrl,
    stage: RxStageView,
    replies: Seq<Reply>,
) -> bool {
    let step = rx_next(opts, addr, rx, ctrl, stage, replies);
    advances(opts, addr, mem, write, status, rx, ctrl, stage, step)
}

proof fn lemma_compared_advances(
    opts: Options,
    addr: u32,
    mem: Memory,
    write: u32,
    status: u32,
    rx: RxView,
    ctrl: HostCtrl,
    packet: RxPacketView,
    replies: Seq<Reply>,
)
    requires
        addr <= MAX_RAM_BASE,
        registers_apart(addr),
    ensures
        next_advances(
            opts,
            addr,
            mem,
            write,
            status,
            rx,
            ctrl,
            RxStageView::ReadingTwice(packet),
            replies,
        ),
{
    let stage = RxStageView::ReadingTwice(packet);
    let way = lemma_compared_onward(opts, addr, u32::MAX as int, rx, ctrl, packet, joined(replies));
    let step = compared(opts, addr, rx, ctrl, packet, joined(replies));
    lemma_onward_gone(
        opts,
        addr,
        u32::MAX as int,
        rx.pointer,
        ctrl,
        packet,
        pace(stage),
        step,
        way.0,
        way.1,
    );
    lemma_gone_advances(opts, addr, mem, write, status, rx, ctrl, stage, step);
    reveal(next_advances);
}

proof fn lemma_difference_advances(
    opts: Options,
    addr: u32,
    mem: Memory,
    write: u32,
    status: u32,
    rx: RxView,
    ctrl: HostCtrl,
    packet: RxPacketView,
    diff: Diff,
    replies: Seq<Reply>,
)
    requires
        addr <= MAX_RAM_BASE,
        registers_apart(addr),
    ensures
        next_advances(
            opts,
            addr,
            mem,
            write,
            status,
            rx,
            ctrl,
            RxStageView::Differing { packet, diff },
            replies,
        ),
{
    let stage = RxStageView::Differing { packet, diff };
    let way = lemma_difference_onward(
        opts,
        addr,
        u32::MAX as int,
        rx,
        ctrl,
        packet,
        diff,
        byte_of(replies[0]),
    );
    let step = difference_shown(opts, addr, rx, ctrl, packet, diff, byte_of(replies[0]));
    lemma_onward_gone(
        opts,
        addr,
        u32::MAX as int,
        rx.pointer,
        ctrl,
        packet,
        pace(stage),
        step,
        way.0,
        way.1,
    );
    lemma_gone_advances(opts, addr, mem, write, status, rx, ctrl, stage, step);
    reveal(next_advances);
}

proof fn lemma_damage_advances(
    opts: Options,
    addr: u32,
    mem: Memory,
    write: u32,
    status: u32,
    rx: RxView,
    ctrl: HostCtrl,
    packet: RxPacketView,
    hit: SentinelHit,
    replies: Seq<Reply>,
)
    requires
        addr <= MAX_RAM_BASE,
        registers_apart(addr),
    ensures
        next_advances(
            opts,
            addr,
            mem,
            write,
            status,
            rx,
            ctrl,
            RxStageView::Damaged { packet, hit },
            replies,
        ),
{
    let stage = RxStageView::Damaged { packet, hit };
    let way = lemma_damage_onward(
        opts,
        addr,
        u32::MAX as int,
        rx,
        ctrl,
        packet,
        hit,
        byte_of(replies[0]),
    );
    let step = damage_shown(opts, addr, rx, ctrl, packet, hit, byte_of(replies[0]));
    lemma_onward_gone(
        opts,
        addr,
        u32::MAX as int,
        rx.pointer,
        ctrl,
        packet,
        pace(stage),
        step,
        way.0,
        way.1,
    );
    lemma_gone_advances(opts, addr, mem, write, status, rx, ctrl, stage, step);
    reveal(next_advances);
}

proof fn lemma_probed_advances(
    opts: Options,
    addr: u32,
    mem: Memory,
    write: u32,
    status: u32,
    rx: RxView,
    ctrl: HostCtrl,
    packet: RxPacketView,
    byte: ProbedByte,
    replies: Seq<Reply>,
)
    requires
        addr <= MAX_RAM_BASE,
        registers_apart(addr),
    ensures
        next_advances(
            opts,
            addr,
            mem,
            write,
            status,
            rx,
            ctrl,
            RxStageView::Probing { packet, byte },
            replies,
        ),
{
    let stage = RxStageView::Probing { packet, byte };
    let way = lemma_probed_onward(
        opts,
        addr,
        u32::MAX as int,
        rx,
        ctrl,
        packet,
        byte,
        byte_of(replies[0]),
    );
    let step = probed(opts, addr, rx, ctrl, packet, byte, byte_of(replies[0]));
    lemma_onward_gone(
        opts,
        addr,
        u32::MAX as int,
        rx.pointer,
        ctrl,
        packet,
        pace(stage),
        step,
        way.0,
        way.1,
    );
    lemma_gone_advances(opts, addr, mem, write, status, rx, ctrl, stage, step);
    reveal(next_advances);
}

proof fn lemma_payload_advances(
    opts: Options,
    addr: u32,
    mem: Memory,
    write: u32,
    status: u32,
    rx: RxView,
    ctrl: HostCtrl,
    kind: u8,
    len: u32,
    replies: Seq<Reply>,
)
    requires
        addr <= MAX_RAM_BASE,
        registers_apart(addr),
        truthful(
            opts,
            addr,
            mem,
            write,
            rx,
            RxStageView::ReadingPayload { kind, len },
            replies,
        ),
    ensures
        next_advances(
            opts,
            addr,
            mem,
            write,
            status,
            rx,
            ctrl,
            RxStageView::ReadingPayload { kind, len },
            replies,
        ),
{
    let stage = RxStageView::ReadingPayload { kind, len };
    let packet = RxPacketView { kind, len, start: rx.pointer, payload: joined(replies) };
    let way = lemma_received_onward(opts, addr, u32::MAX + 1, rx, ctrl, packet);
    let step = received(opts, addr, rx, ctrl, packet);
    assert(packet.payload.len() == padded_len(len as int));
    lemma_onward_gone(
        opts,
        addr,
        u32::MAX + 1,
        rx.pointer,
        ctrl,
        packet,
        pace(stage),
        step,
        way.0,
        way.1,
    );
    lemma_gone_advances(opts, addr, mem, write, status, rx, ctrl, stage, step);
    reveal(next_advances);
}

proof fn lemma_published_advances(
    opts: Options,
    addr: u32,
    mem: Memory,
    write: u32,
    status: u32,
    rx: RxView,
    ctrl: HostCtrl,
    packet: RxPacketView,
    pointer: PointerWrite,
    replies: Seq<Reply>,
)
    requires
        addr <= MAX_RAM_BASE,
        registers_apart(addr),
        pointer.stage is Verifying,
    ensures
        next_advances(
            opts,
            addr,
            mem,
            write,
            status,
            rx,
            ctrl,
            RxStageView::Publishing { packet, write: pointer },
            replies,
        ),
{
    let stage = RxStageView::Publishing { packet, write: pointer };
    let got = word_of(replies[0]);
    let step = published(opts, addr, rx, ctrl, packet, pointer, got);
    lemma_published_gone(opts, addr, rx, ctrl, packet, pointer, got);
    lemma_gone_advances(opts, addr, mem, write, status, rx, ctrl, stage, step);
    reveal(next_advances);
}

proof fn lemma_signalling_advances(
    opts: Options,
    addr: u32,
    mem: Memory,
    write: u32,
    status: u32,
    rx: RxView,
    ctrl: HostCtrl,
    update: HostCtrlUpdate,
    replies: Seq<Reply>,
)
    requires
        addr <= MAX_RAM_BASE,
        registers_apart(addr),
        ready(opts, RxStageView::Signalling(update)),
    ensures
        next_advances(
            opts,
            addr,
            mem,
            write,
            status,
            rx,
            ctrl,
            RxStageView::Signalling(update),
            replies,
        ),
{
    let stage = RxStageView::Signalling(update);
    let step = signalling(opts, addr, rx, ctrl, update, words_of(replies));
    lemma_signalling_gone(opts, addr, mem, rx, ctrl, update, words_of(replies));
    lemma_gone_advances(opts, addr, mem, write, status, rx, ctrl, stage, step);
    reveal(next_advances);
}

proof fn lemma_pointed_advances(
    opts: Options,
    addr: u32,
    mem: Memory,
    write: u32,
    status: u32,
    rx: RxView,
    ctrl: HostCtrl,
    replies: Seq<Reply>,
)
    requires
        addr <= MAX_RAM_BASE,
        registers_apart(addr),
        truthful(opts, addr, mem, write, rx, RxStageView::Polling, replies),
    ensures
        next_advances(opts, addr, mem, write, status, rx, ctrl, RxStageView::Polling, replies),
{
    let words = pointer_words(opts, replies, 0);
    let reports = pointer_reports(BTSDIO_OFFSET_BT2HOST_IN, words);
    let reads = ring_reads(rx_base(addr), rx.pointer, 4);
    let step = pointed(opts, addr, rx, ctrl, words);
    assert(calm(reports));
    assert(calm(reads));
    assert(calm(reports + reads));
    lemma_calm_unseen(addr, step.acts);
    let all = pending(addr, mem, write, status, rx, RxStageView::Polling);
    assert(Seq::<Event>::empty() + all =~= all);
    assert(advances(opts, addr, mem, write, status, rx, ctrl, RxStageView::Polling, step));
    reveal(next_advances);
}

proof fn lemma_framed_advances(
    opts: Options,
    addr: u32,
    mem: Memory,
    write: u32,
    status: u32,
    rx: RxView,
    ctrl: HostCtrl,
    available: u32,
    replies: Seq<Reply>,
)
    requires
        addr <= MAX_RAM_BASE,
        registers_apart(addr),
        consistent(write, rx, RxStageView::ReadingHeader { available }),
        truthful(
            opts,
            addr,
            mem,
            write,
            rx,
            RxStageView::ReadingHeader { available },
            replies,
        ),
    ensures
        next_advances(
            opts,
            addr,
            mem,
            write,
            status,
            rx,
            ctrl,
            RxStageView::ReadingHeader { available },
            replies,
        ),
{
    let stage = RxStageView::ReadingHeader { available };
    let base = rx_base(addr) as int;
    let header = joined(replies);
    let len = header_len(header);
    let rounded = padded_len(len);
    let step = framed(addr, rx, ctrl, available, header);
    let reads = ring_reads(rx_base(addr), ring_moved(rx.pointer, 4), rounded);
    assert(calm(reads));
    assert(calm(seq![ActionView::ReserveRx] + reads));
    lemma_calm_unseen(addr, step.acts);
    let all = pending(addr, mem, write, status, rx, stage);
    assert(Seq::<Event>::empty() + all =~= all);
    if step.stage is ReadingPayload {
        let start = ring_moved(rx.pointer, 4);
        lemma_used_less(rx.pointer, write, 4);
        lemma_used_less(start, write, rounded);
        let n = ring_used(rx.pointer, write);
        let end = ring_moved(start, rounded);
        assert(behind(step.rx, step.stage) == end);
        assert(ring_used(end, write) == n - 4 - rounded);
        assert(all =~= events_in_ring(mem, base, rx.pointer, n));
    }
    assert(advances(opts, addr, mem, write, status, rx, ctrl, stage, step));
    reveal(next_advances);
}

proof fn lemma_checked_advances(
    opts: Options,
    addr: u32,
    mem: Memory,
    write: u32,
    status: u32,
    rx: RxView,
    ctrl: HostCtrl,
    replies: Seq<Reply>,
)
    requires
        addr <= MAX_RAM_BASE,
        registers_apart(addr),
        status & I_HMB_FC_CHANGE != 0,
        word_of(replies[0]) == status,
    ensures
        next_advances(opts, addr, mem, write, status, rx, ctrl, RxStageView::Checking, replies),
{
    let step = checked(opts, addr, rx, ctrl, status);
    let asked = ask_pointer(opts, addr, rx, ctrl);
    let clear = ActionView::Write32 {
        addr: int_status_addr(),
        value: status & I_HMB_FC_CHANGE,
    };
    assert(calm(asked.acts));
    lemma_calm_unseen(addr, asked.acts);
    lemma_one_seen(addr, clear);
    law_trace_in_turn(addr, seq![clear], asked.acts);
    let more = pending(addr, mem, write, status, rx, RxStageView::Polling);
    let all = pending(addr, mem, write, status, rx, RxStageView::Checking);
    assert(trace(addr, step.acts) + more =~= all);
    assert(advances(opts, addr, mem, write, status, rx, ctrl, RxStageView::Checking, step));
    reveal(next_advances);
}

proof fn lemma_stages_advance(
    opts: Options,
    addr: u32,
    mem: Memory,
    write: u32,
    status: u32,
    rx: RxView,
    ctrl: HostCtrl,
    stage: RxStageView,
    replies: Seq<Reply>,
)
    requires
        addr <= MAX_RAM_BASE,
        registers_apart(addr),
        !(stage is Done || stage is Failed),
        ready(opts, stage),
        consistent(write, rx, stage),
        truthful(opts, addr, mem, write, rx, stage, replies),
        stage is Checking ==> status & I_HMB_FC_CHANGE != 0 && word_of(replies[0]) == status,
    ensures
        next_advances(opts, addr, mem, write, status, rx, ctrl, stage, replies),
{
    match stage {
        RxStageView::Checking => {
            lemma_checked_advances(opts, addr, mem, write, status, rx, ctrl, replies);
        },
        RxStageView::Polling => {
            lemma_pointed_advances(opts, addr, mem, write, status, rx, ctrl, replies);
        },
        RxStageView::ReadingHeader { available } => {
            lemma_framed_advances(opts, addr, mem, write, status, rx, ctrl, available, replies);
        },
        RxStageView::ReadingPayload { kind, len } => {
            lemma_payload_advances(opts, addr, mem, write, status, rx, ctrl, kind, len, replies);
        },
        RxStageView::ReadingTwice(packet) => {
            lemma_compared_advances(opts, addr, mem, write, status, rx, ctrl, packet, replies);
        },
        RxStageView::Differing { packet, diff } => {
            lemma_difference_advances(
                opts,
                addr,
                mem,
                write,
                status,
                rx,
                ctrl,
                packet,
                diff,
                replies,
            );
        },
        RxStageView::Damaged { packet, hit } => {
            lemma_damage_advances(opts, addr, mem, write, status, rx, ctrl, packet, hit, replies);
        },
        RxStageView::Probing { packet, byte } => {
            lemma_probed_advances(opts, addr, mem, write, status, rx, ctrl, packet, byte, replies);
        },
        RxStageView::Publishing { packet, write: pointer } => {
            lemma_published_advances(
                opts,
                addr,
                mem,
                write,
                status,
                rx,
                ctrl,
                packet,
                pointer,
                replies,
            );
        },
        RxStageView::Signalling(update) => {
            lemma_signalling_advances(opts, addr, mem, write, status, rx, ctrl, update, replies);
        },
        _ => {},
    }
}

/// What holds after some rounds of an interrupt.
spec fn on_the_way(
    opts: Options,
    addr: u32,
    mem: Memory,
    write: u32,
    status: u32,
    rx: RxView,
    ctrl: HostCtrl,
    rounds: int,
    run: RxStep,
) -> bool {
    let stage = RxStageView::Checking;
    &&& !opts.strict_checks && only_whole(addr, mem, write, rx, stage) ==> !(run.stage is Failed)
    &&& run.stage is Failed || {
        &&& ready(opts, run.stage)
        &&& consistent(write, run.rx, run.stage)
        &&& trace(addr, run.acts) + pending(addr, mem, write, status, run.rx, run.stage) == pending(
            addr,
            mem,
            write,
            status,
            rx,
            stage,
        )
        &&& final_value(opts, addr, mem, write, run.rx, run.ctrl, run.stage) == final_value(
            opts,
            addr,
            mem,
            write,
            rx,
            ctrl,
            stage,
        )
        &&& submitted(run.acts) + owed(addr, mem, write, run.rx, run.stage) == owed(
            addr,
            mem,
            write,
            rx,
            stage,
        )
        &&& run.stage is Checking ==> rounds == 0
        &&& run.stage is Done ==> owed(addr, mem, write, run.rx, run.stage) == Seq::<
            Seq<u8>,
        >::empty()
        &&& !(run.stage is Done) ==> rounds + rounds_left(addr, mem, write, run.rx, run.stage)
            <= rounds_left(addr, mem, write, rx, stage)
        &&& only_whole(addr, mem, write, rx, stage) ==> {
            &&& only_whole(addr, mem, write, run.rx, run.stage)
            &&& run.stage is Done ==> ring_used(run.rx.pointer, write) == 0
        }
    }
}

/// One more round of an interrupt.
proof fn lemma_one_more_round(
    opts: Options,
    addr: u32,
    mem: Memory,
    write: u32,
    status: u32,
    rx: RxView,
    ctrl: HostCtrl,
    rounds: int,
    before: RxStep,
    replies: Seq<Reply>,
)
    requires
        addr <= MAX_RAM_BASE,
        registers_apart(addr),
        status & I_HMB_FC_CHANGE != 0,
        before.stage is Checking ==> word_of(replies[0]) == status,
        on_the_way(opts, addr, mem, write, status, rx, ctrl, rounds, before),
        truthful(opts, addr, mem, write, before.rx, before.stage, replies),
    ensures
        ({
            let step = rx_next(opts, addr, before.rx, before.ctrl, before.stage, replies);
            on_the_way(
                opts,
                addr,
                mem,
                write,
                status,
                rx,
                ctrl,
                rounds + 1,
                step.after(before.acts),
            )
        }),
{
    let step = rx_next(opts, addr, before.rx, before.ctrl, before.stage, replies);
    let run = step.after(before.acts);
    if before.stage is Done {
        assert(step.acts =~= seq![]);
        assert(run.acts =~= before.acts);
    } else if !(before.stage is Failed) {
        let at = before.stage;
        law_nothing_is_lost(opts, addr, mem, write, before.rx, before.ctrl, at, replies);
        lemma_stages_advance(opts, addr, mem, write, status, before.rx, before.ctrl, at, replies);
        reveal(next_advances);
        law_trace_in_turn(addr, before.acts, step.acts);
        let left = pending(addr, mem, write, status, step.rx, step.stage);
        assert(trace(addr, before.acts) + trace(addr, step.acts) + left =~= trace(addr, before.acts)
            + (trace(addr, step.acts) + left));
        law_submitted_in_turn(before.acts, step.acts);
        let owing = owed(addr, mem, write, step.rx, step.stage);
        assert(submitted(before.acts) + submitted(step.acts) + owing =~= submitted(before.acts) + (
        submitted(step.acts) + owing));
        if before.stage is Checking {
            lemma_checked_goes_on(opts, addr, before.rx, before.ctrl, status, replies);
        }
    }
}

proof fn lemma_checked_goes_on(
    opts: Options,
    addr: u32,
    rx: RxView,
    ctrl: HostCtrl,
    status: u32,
    replies: Seq<Reply>,
)
    requires
        status & I_HMB_FC_CHANGE != 0,
        word_of(replies[0]) == status,
    ensures
        rx_next(opts, addr, rx, ctrl, RxStageView::Checking, replies).stage is Polling,
{
}

proof fn lemma_rounds(
    opts: Options,
    addr: u32,
    mem: Memory,
    write: u32,
    status: u32,
    rx: RxView,
    ctrl: HostCtrl,
    rounds: Seq<Seq<Reply>>,
)
    requires
        addr <= MAX_RAM_BASE,
        registers_apart(addr),
        ring_pointer(rx.pointer),
        status & I_HMB_FC_CHANGE != 0,
        rounds.len() > 0 ==> word_of(rounds[0][0]) == status,
        truthful_run(opts, addr, mem, write, rx, ctrl, RxStageView::Checking, rounds),
    ensures
        on_the_way(
            opts,
            addr,
            mem,
            write,
            status,
            rx,
            ctrl,
            rounds.len() as int,
            rx_run(opts, addr, rx, ctrl, RxStageView::Checking, rounds),
        ),
    decreases rounds.len(),
{
    let stage = RxStageView::Checking;
    if rounds.len() == 0 {
        let all = pending(addr, mem, write, status, rx, stage);
        assert(Seq::<Event>::empty() + all =~= all);
        let owing = owed(addr, mem, write, rx, stage);
        assert(Seq::<Seq<u8>>::empty() + owing =~= owing);
    } else {
        let before = rx_run(opts, addr, rx, ctrl, stage, rounds.drop_last());
        lemma_rounds(opts, addr, mem, write, status, rx, ctrl, rounds.drop_last());
        lemma_one_more_round(
            opts,
            addr,
            mem,
            write,
            status,
            rx,
            ctrl,
            rounds.len() - 1,
            before,
            rounds.last(),
        );
    }
}

/// A reader that has nothing to read is where the writer is.
proof fn lemma_nothing_to_read(read: u32, write: u32)
    requires
        read < BTSDIO_FWBUF_SIZE,
        write < BTSDIO_FWBUF_SIZE,
        ring_used(read, write) == 0,
    ensures
        read == write,
{
    lemma_fundamental_div_mod(write - read, BTSDIO_FWBUF_SIZE as int);
}

/// Where no packet is in the ring, nothing is to be seen of one.
proof fn lemma_no_packet_unseen(mem: Memory, base: int, p: u32, n: int)
    requires
        packets_in_ring(mem, base, p, n) == Seq::<Seq<u8>>::empty(),
    ensures
        events_in_ring(mem, base, p, n) == Seq::<Event>::empty(),
{
    law_each_packet_answered(mem, base, p, n);
    assert(events_in_ring(mem, base, p, n) =~= seq![]);
}

/// What holds at the end of an interrupt.
proof fn lemma_end_of_interrupt(
    opts: Options,
    addr: u32,
    mem: Memory,
    write: u32,
    status: u32,
    rx: RxView,
    ctrl: HostCtrl,
    rounds: int,
    run: RxStep,
)
    requires
        on_the_way(opts, addr, mem, write, status, rx, ctrl, rounds, run),
        run.stage is Done,
    ensures
        trace(addr, run.acts) == pending(addr, mem, write, status, rx, RxStageView::Checking),
        submitted(run.acts) == owed(addr, mem, write, rx, RxStageView::Checking),
        run.ctrl.cache == final_value(opts, addr, mem, write, rx, ctrl, RxStageView::Checking),
        only_whole(addr, mem, write, rx, RxStageView::Checking) && write < BTSDIO_FWBUF_SIZE
            ==> run.rx.pointer == write,
{
    let base = rx_base(addr) as int;
    let n = ring_used(run.rx.pointer, write);
    lemma_no_packet_unseen(mem, base, run.rx.pointer, n);
    let left = pending(addr, mem, write, status, run.rx, run.stage);
    assert(left =~= seq![]);
    assert(trace(addr, run.acts) + left =~= trace(addr, run.acts));
    assert(submitted(run.acts) + Seq::<Seq<u8>>::empty() =~= submitted(run.acts));
    assert(raised(opts, run.ctrl.cache, 0) == run.ctrl.cache);
    if n == 0 && write < BTSDIO_FWBUF_SIZE {
        lemma_nothing_to_read(run.rx.pointer, write);
    }
}

/// What an interrupt leads to, from the first look at its status on, as long as
/// the Bluetooth core adds nothing to the ring meanwhile.
///
/// Its status is cleared once. Then each packet in the ring is acknowledged by its
/// end, handed over with its bytes and answered with one write of the host control
/// register, in this order, and nothing else is seen. The cached value of that
/// register is then the one after so many interrupts. Where there are nothing but
/// whole packets in the ring, the read pointer ends at the write pointer, and
/// nothing but a strict check can fail. The work ends after a limited number of
/// rounds.
pub proof fn law_interrupt_answered(
    opts: Options,
    addr: u32,
    mem: Memory,
    write: u32,
    status: u32,
    rx: RxView,
    ctrl: HostCtrl,
    rounds: Seq<Seq<Reply>>,
)
    requires
        addr <= MAX_RAM_BASE,
        registers_apart(addr),
        ring_pointer(rx.pointer),
        status & I_HMB_FC_CHANGE != 0,
        rounds.len() > 0 ==> word_of(rounds[0][0]) == status,
        truthful_run(opts, addr, mem, write, rx, ctrl, RxStageView::Checking, rounds),
    ensures
        ({
            let run = rx_run(opts, addr, rx, ctrl, RxStageView::Checking, rounds);
            let base = rx_base(addr) as int;
            let n = ring_used(rx.pointer, write);
            let packets = packets_in_ring(mem, base, rx.pointer, n);
            let events = events_in_ring(mem, base, rx.pointer, n);
            let odd = packets.len() % 2 == 1;
            &&& run.stage is Done ==> {
                &&& trace(addr, run.acts) == seq![Event::Cleared(status & I_HMB_FC_CHANGE)] + events
                &&& each_answered(packets, events)
                &&& submitted(run.acts) == packets
                &&& run.ctrl.cache == raised(opts, ctrl.cache, packets.len())
                &&& !opts.intr_set ==> run.ctrl.cache == ctrl.cache ^ if odd {
                    BTSDIO_REG_DATA_VALID_BITMASK
                } else {
                    0
                }
                &&& whole(mem, base, rx.pointer, n) && write < BTSDIO_FWBUF_SIZE
                    ==> run.rx.pointer == write
            }
            &&& !opts.strict_checks && whole(mem, base, rx.pointer, n) ==> !(run.stage is Failed)
            &&& rounds.len() >= 15 * packets.len() + 3 ==> run.stage is Done || run.stage is Failed
        }),
{
    let stage = RxStageView::Checking;
    let run = rx_run(opts, addr, rx, ctrl, stage, rounds);
    let base = rx_base(addr) as int;
    let n = ring_used(rx.pointer, write);
    let events = events_in_ring(mem, base, rx.pointer, n);
    let packets = packets_in_ring(mem, base, rx.pointer, n);
    lemma_rounds(opts, addr, mem, write, status, rx, ctrl, rounds);
    law_each_packet_answered(mem, base, rx.pointer, n);
    law_raised(opts, ctrl.cache, packets.len());
    if run.stage is Done {
        lemma_end_of_interrupt(
            opts,
            addr,
            mem,
            write,
            status,
            rx,
            ctrl,
            rounds.len() as int,
            run,
        );
    }
}

} // verus!
