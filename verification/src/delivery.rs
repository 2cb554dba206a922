//! Every packet in the incoming ring is handed over exactly once and in order,
//! whatever the options.

use vstd::arithmetic::div_mod::*;
use vstd::prelude::*;

use crate::action::{byte_of, logged, optional, word_of, words_of, ActionView, Reply};
use crate::consts::{BTSDIO_FWBUF_SIZE, BT_HCI_MTU, MAX_RAM_BASE};
use crate::diff::{diff_of, Diff};
use crate::host_ctrl::{
    signal_change, update_begin, update_next, update_write, HostCtrl, HostCtrlUpdate,
};
use crate::memory::Memory;
use crate::options::Options;
use crate::packet::BtPacketBuf;
use crate::pointer::{pointer_value, pointer_words, PointerStage, PointerWrite};
use crate::probe::{chunk_len, chunk_reads, ProbedByte};
use crate::report::Report;
use crate::ring::{
    blocks_of_memory, header_len, joined, law_frame_round_trip, law_ring_reads_load, padded_len,
    ring_loaded, ring_moved, ring_pointer, ring_reads, ring_stored, ring_used,
};
use crate::rx::{
    checked, compared, damage_shown, difference_report, difference_shown, finish, framed, out_write,
    pointed, probe_o4, probe_o9, probed, published, received, reread, rx_base, rx_next, sample,
    sampled, search, searched, signalled, signalling, submit, RxPacketView, RxStageView, RxStep,
    RxView, BT_RING_RX_INTR_DELAY_US, BT_RING_RX_OUT_DELAY_US,
};
use crate::sentinel::SentinelHit;
use crate::tx::{body_len, frame_len, packet_header, packet_payload};

verus! {

/// The packets that a list of actions hands over, in order.
pub open spec fn submitted(acts: Seq<ActionView>) -> Seq<Seq<u8>>
    decreases acts.len(),
{
    if acts.len() == 0 {
        seq![]
    } else {
        let before = submitted(acts.drop_last());
        match acts.last() {
            ActionView::SubmitRx { data } => before.push(data),
            _ => before,
        }
    }
}

/// The whole packets in the ring at `base`, in the `n` bytes from position `p`
/// on, as far as each fits its buffer.
pub open spec fn packets_in_ring(mem: Memory, base: int, p: u32, n: int) -> Seq<Seq<u8>>
    decreases n,
{
    let header = ring_loaded(mem, base, p as int, 4);
    let len = header_len(header);
    let rounded = padded_len(len);
    if n < 4 + rounded || rounded >= BT_HCI_MTU || n < 4 {
        seq![]
    } else {
        let start = ring_moved(p, 4);
        let body = ring_loaded(mem, base, start as int, rounded as nat).take(len);
        seq![seq![header[3]] + body] + packets_in_ring(
            mem,
            base,
            ring_moved(start, rounded),
            n - 4 - rounded,
        )
    }
}

/// The packets that are still to be handed over, if the Bluetooth core has
/// written up to `write`.
pub open spec fn owed(
    addr: u32,
    mem: Memory,
    write: u32,
    rx: RxView,
    stage: RxStageView,
) -> Seq<Seq<u8>> {
    let base = rx_base(addr) as int;
    let waiting = ring_used(rx.pointer, write);
    match stage {
        RxStageView::ReadingPayload { kind, len } => {
            let rounded = padded_len(len as int);
            let body = ring_loaded(mem, base, rx.pointer as int, rounded as nat).take(len as int);
            seq![seq![kind] + body] + packets_in_ring(
                mem,
                base,
                ring_moved(rx.pointer, rounded),
                waiting - rounded,
            )
        },
        RxStageView::ReadingTwice(packet) => packet_and_more(addr, mem, write, rx, packet),
        RxStageView::Differing { packet, diff } => packet_and_more(addr, mem, write, rx, packet),
        RxStageView::Damaged { packet, hit } => packet_and_more(addr, mem, write, rx, packet),
        RxStageView::Probing { packet, byte } => packet_and_more(addr, mem, write, rx, packet),
        RxStageView::Publishing { packet, write: _ } => seq![packet.bytes()] + packets_in_ring(
            mem,
            base,
            rx.pointer,
            waiting,
        ),
        _ => packets_in_ring(mem, base, rx.pointer, waiting),
    }
}

/// A packet in hand, and the packets behind it in the ring.
pub open spec fn packet_and_more(
    addr: u32,
    mem: Memory,
    write: u32,
    rx: RxView,
    packet: RxPacketView,
) -> Seq<
    Seq<u8>,
> {
    let n = packet.payload.len() as int;
    seq![packet.bytes()] + packets_in_ring(
        mem,
        rx_base(addr) as int,
        ring_moved(rx.pointer, n),
        ring_used(rx.pointer, write) - n,
    )
}

/// Whether a packet in hand is the one at the read pointer.
pub open spec fn at_pointer(write: u32, rx: RxView, packet: RxPacketView) -> bool {
    &&& packet.wf()
    &&& packet.payload.len() <= ring_used(rx.pointer, write)
}

/// Whether a stage belongs to what is kept, if the Bluetooth core has written up
/// to `write`.
pub open spec fn consistent(write: u32, rx: RxView, stage: RxStageView) -> bool {
    &&& ring_pointer(rx.pointer)
    &&& match stage {
        RxStageView::ReadingHeader { available } => available == ring_used(rx.pointer, write),
        RxStageView::ReadingPayload { kind, len } => {
            &&& padded_len(len as int) <= ring_used(rx.pointer, write)
            &&& padded_len(len as int) < BT_HCI_MTU
        },
        RxStageView::ReadingTwice(packet) => at_pointer(write, rx, packet),
        RxStageView::Differing { packet, diff } => at_pointer(write, rx, packet),
        RxStageView::Damaged { packet, hit } => at_pointer(write, rx, packet),
        RxStageView::Probing { packet, byte } => at_pointer(write, rx, packet),
        _ => true,
    }
}

/// Whether the replies tell what memory holds, where the Bluetooth core has
/// written up to `write`.
pub open spec fn truthful(
    opts: Options,
    addr: u32,
    mem: Memory,
    write: u32,
    rx: RxView,
    stage: RxStageView,
    replies: Seq<Reply>,
) -> bool {
    let base = rx_base(addr) as int;
    match stage {
        RxStageView::Polling => pointer_words(opts, replies, 0).last() == write,
        RxStageView::ReadingHeader { .. } => joined(replies) == ring_loaded(
            mem,
            base,
            rx.pointer as int,
            4,
        ),
        RxStageView::ReadingPayload { kind, len } => joined(replies) == ring_loaded(
            mem,
            base,
            rx.pointer as int,
            padded_len(len as int) as nat,
        ),
        _ => true,
    }
}

/// Whether no action hands anything over.
pub open spec fn hands_nothing_over(acts: Seq<ActionView>) -> bool {
    forall|i: int| 0 <= i < acts.len() ==> !(#[trigger] acts[i] is SubmitRx)
}

/// Actions that hand nothing over submit no packet.
pub proof fn lemma_nothing_submitted(acts: Seq<ActionView>)
    requires
        hands_nothing_over(acts),
    ensures
        submitted(acts) == Seq::<Seq<u8>>::empty(),
    decreases acts.len(),
{
    if acts.len() > 0 {
        assert(!(acts[acts.len() - 1] is SubmitRx));
        lemma_nothing_submitted(acts.drop_last());
    }
}

/// What two lists of actions hand over, one after the other.
pub proof fn law_submitted_in_turn(a: Seq<ActionView>, b: Seq<ActionView>)
    ensures
        submitted(a + b) == submitted(a) + submitted(b),
    decreases b.len(),
{
    if b.len() == 0 {
        assert(a + b =~= a);
        assert(submitted(a) + submitted(b) =~= submitted(a));
    } else {
        law_submitted_in_turn(a, b.drop_last());
        assert((a + b).drop_last() =~= a + b.drop_last());
        assert((a + b).last() == b.last());
        assert(submitted(a + b) =~= submitted(a) + submitted(b));
    }
}

/// Whether after a step everything is still in order, what it hands over and what
/// is owed then make up `all`, and the end comes only when nothing is owed.
pub open spec fn keeps(
    addr: u32,
    mem: Memory,
    write: u32,
    step: RxStep,
    all: Seq<Seq<u8>>,
) -> bool {
    let left = owed(addr, mem, write, step.rx, step.stage);
    step.stage is Failed || {
        &&& consistent(write, step.rx, step.stage)
        &&& submitted(step.acts) + left == all
        &&& step.stage is Done ==> left == Seq::<Seq<u8>>::empty()
        &&& !(step.stage is Checking)
    }
}

proof fn lemma_keeps_after(
    addr: u32,
    mem: Memory,
    write: u32,
    step: RxStep,
    acts: Seq<ActionView>,
    all: Seq<Seq<u8>>,
)
    requires
        keeps(addr, mem, write, step, all),
        hands_nothing_over(acts),
    ensures
        keeps(addr, mem, write, step.after(acts), all),
{
    law_submitted_in_turn(acts, step.acts);
    lemma_nothing_submitted(acts);
    assert(submitted(acts) + submitted(step.acts) =~= submitted(step.acts));
}

/// A step that hands nothing over and keeps what is owed.
proof fn lemma_keeps_quietly(addr: u32, mem: Memory, write: u32, step: RxStep, all: Seq<Seq<u8>>)
    requires
        hands_nothing_over(step.acts),
        consistent(write, step.rx, step.stage),
        owed(addr, mem, write, step.rx, step.stage) == all,
        step.stage is Done ==> all == Seq::<Seq<u8>>::empty(),
        !(step.stage is Checking),
    ensures
        keeps(addr, mem, write, step, all),
{
    lemma_nothing_submitted(step.acts);
    assert(Seq::<Seq<u8>>::empty() + all =~= all);
}

/// Moving the read pointer leaves less to read.
pub proof fn lemma_used_less(read: u32, write: u32, n: int)
    requires
        ring_pointer(read),
        0 <= n <= ring_used(read, write),
        n % 4 == 0,
    ensures
        ring_used(ring_moved(read, n), write) == ring_used(read, write) - n,
        ring_pointer(ring_moved(read, n)),
{
    let size = BTSDIO_FWBUF_SIZE as int;
    let moved = (read + n) % size;
    lemma_sub_mod_noop_right(write as int, read + n, size);
    assert((write - moved) % size == (write - (read + n)) % size);
    let d = write - read;
    lemma_sub_mod_noop(d, n, size);
    lemma_mod_bound(d, size);
    lemma_sub_mod_noop(d % size, n, size);
    lemma_mod_twice(d, size);
    lemma_small_mod((d % size - n) as nat, size as nat);
}

proof fn lemma_update_quiet(opts: Options, ctrl: HostCtrl, update: HostCtrlUpdate, words: Seq<u32>)
    ensures
        hands_nothing_over(update_write(opts, ctrl, update.change).acts),
        hands_nothing_over(update_begin(opts, ctrl, update.change).acts),
        hands_nothing_over(update_next(opts, ctrl, update, words).acts),
{
}

proof fn lemma_chunks_quiet(base: u32, p: u32, n: int)
    ensures
        hands_nothing_over(chunk_reads(base, p, n)),
    decreases n,
{
    if n > 0 && p < BTSDIO_FWBUF_SIZE {
        let k = chunk_len(p, n);
        lemma_chunks_quiet(base, ring_moved(p, k), n - k);
    }
}

proof fn lemma_signalled(
    opts: Options,
    addr: u32,
    mem: Memory,
    write: u32,
    rx: RxView,
    ctrl: HostCtrl,
    update: HostCtrlUpdate,
)
    requires
        ring_pointer(rx.pointer),
    ensures
        keeps(
            addr,
            mem,
            write,
            signalled(opts, addr, rx, ctrl, update),
            packets_in_ring(mem, rx_base(addr) as int, rx.pointer, ring_used(rx.pointer, write)),
        ),
{
    let step = signalled(opts, addr, rx, ctrl, update);
    if !(step.stage is Failed) {
        lemma_keeps_quietly(
            addr,
            mem,
            write,
            step,
            packets_in_ring(mem, rx_base(addr) as int, rx.pointer, ring_used(rx.pointer, write)),
        );
    }
}

proof fn lemma_submit(
    opts: Options,
    addr: u32,
    mem: Memory,
    write: u32,
    rx: RxView,
    ctrl: HostCtrl,
    packet: RxPacketView,
)
    requires
        ring_pointer(rx.pointer),
    ensures
        keeps(
            addr,
            mem,
            write,
            submit(opts, addr, rx, ctrl, packet),
            seq![packet.bytes()] + packets_in_ring(
                mem,
                rx_base(addr) as int,
                rx.pointer,
                ring_used(rx.pointer, write),
            ),
        ),
{
    let rest = packets_in_ring(mem, rx_base(addr) as int, rx.pointer, ring_used(rx.pointer, write));
    let change = signal_change(opts);
    let step = update_begin(opts, ctrl, change);
    let update = HostCtrlUpdate { change, stage: step.stage };
    let next = signalled(opts, addr, rx, step.ctrl, update);
    lemma_signalled(opts, addr, mem, write, rx, step.ctrl, update);
    lemma_update_quiet(opts, ctrl, update, seq![]);
    let delay = optional(
        opts.rx_intr_delay,
        ActionView::Delay { micros: BT_RING_RX_INTR_DELAY_US },
    );
    let hand = seq![ActionView::SubmitRx { data: packet.bytes() }];
    let first = hand + delay + step.acts;
    let whole = submit(opts, addr, rx, ctrl, packet);
    assert(whole.acts == first + next.acts);
    if !(whole.stage is Failed) {
        law_submitted_in_turn(first, next.acts);
        law_submitted_in_turn(hand + delay, step.acts);
        law_submitted_in_turn(hand, delay);
        lemma_nothing_submitted(delay);
        lemma_nothing_submitted(step.acts);
        assert(hand.drop_last() =~= seq![]);
        reveal_with_fuel(submitted, 2);
        assert(submitted(hand) =~= seq![packet.bytes()]);
        assert(submitted(first) =~= seq![packet.bytes()]);
        assert(submitted(whole.acts) + owed(addr, mem, write, whole.rx, whole.stage) =~= seq![
            packet.bytes(),
        ] + (submitted(next.acts) + owed(addr, mem, write, next.rx, next.stage)));
    }
}

proof fn lemma_finish(
    opts: Options,
    addr: u32,
    mem: Memory,
    write: u32,
    rx: RxView,
    ctrl: HostCtrl,
    packet: RxPacketView,
)
    requires
        ring_pointer(rx.pointer),
        at_pointer(write, rx, packet),
    ensures
        keeps(
            addr,
            mem,
            write,
            finish(opts, addr, rx, ctrl, packet),
            packet_and_more(addr, mem, write, rx, packet),
        ),
{
    let all = packet_and_more(addr, mem, write, rx, packet);
    lemma_used_less(rx.pointer, write, packet.payload.len() as int);
    let moved = RxView { pointer: ring_moved(rx.pointer, packet.payload.len() as int), ..rx };
    let step = finish(opts, addr, rx, ctrl, packet);
    if opts.pointer_write_readback {
        lemma_keeps_quietly(addr, mem, write, step, all);
    } else {
        lemma_submit(opts, addr, mem, write, moved, ctrl, packet);
        let next = submit(opts, addr, moved, ctrl, packet);
        let before = optional(
            opts.rx_out_delay,
            ActionView::Delay { micros: BT_RING_RX_OUT_DELAY_US },
        ) + seq![out_write(opts, addr, moved.pointer).write()];
        assert(step == next.after(before));
        lemma_keeps_after(addr, mem, write, next, before, all);
    }
}

/// What the probes of a packet come to.
proof fn lemma_probes(
    opts: Options,
    addr: u32,
    mem: Memory,
    write: u32,
    rx: RxView,
    ctrl: HostCtrl,
    packet: RxPacketView,
)
    requires
        ring_pointer(rx.pointer),
        at_pointer(write, rx, packet),
    ensures
        ({
            let all = packet_and_more(addr, mem, write, rx, packet);
            &&& keeps(addr, mem, write, sampled(opts, addr, rx, ctrl, packet), all)
            &&& keeps(addr, mem, write, probe_o9(opts, addr, rx, ctrl, packet), all)
            &&& keeps(addr, mem, write, probe_o4(opts, addr, rx, ctrl, packet), all)
        }),
{
    let all = packet_and_more(addr, mem, write, rx, packet);
    lemma_finish(opts, addr, mem, write, rx, ctrl, packet);
    lemma_keeps_after(
        addr,
        mem,
        write,
        finish(opts, addr, rx, ctrl, packet),
        logged(rx.bytes.summary()),
        all,
    );
    let o9 = probe_o9(opts, addr, rx, ctrl, packet);
    if o9.stage is Probing {
        if packet.len > ProbedByte::O9.at() {
            lemma_keeps_quietly(addr, mem, write, o9, all);
        }
    }
    let o4 = probe_o4(opts, addr, rx, ctrl, packet);
    if packet.len > ProbedByte::O4.at() {
        lemma_keeps_quietly(addr, mem, write, o4, all);
    }
}

proof fn lemma_probed(
    opts: Options,
    addr: u32,
    mem: Memory,
    write: u32,
    rx: RxView,
    ctrl: HostCtrl,
    packet: RxPacketView,
    byte: ProbedByte,
    single: u8,
)
    requires
        ring_pointer(rx.pointer),
        at_pointer(write, rx, packet),
    ensures
        keeps(
            addr,
            mem,
            write,
            probed(opts, addr, rx, ctrl, packet, byte, single),
            packet_and_more(addr, mem, write, rx, packet),
        ),
{
    let all = packet_and_more(addr, mem, write, rx, packet);
    let bulk = packet.payload[byte.at() as int];
    let kept = RxView { bytes: rx.bytes.checked(byte, bulk != single), ..rx };
    lemma_probes(opts, addr, mem, write, kept, ctrl, packet);
    let next = match byte {
        ProbedByte::O4 => probe_o9(opts, addr, kept, ctrl, packet),
        ProbedByte::O9 => sampled(opts, addr, kept, ctrl, packet),
    };
    let report = Report::ByteProbeBad {
        probe_offset: byte.at(),
        bulk,
        single,
        ring_offset: ring_moved(packet.start, byte.at() as int),
    };
    lemma_keeps_after(
        addr,
        mem,
        write,
        next,
        optional(bulk != single, ActionView::Log { report }),
        all,
    );
}

proof fn lemma_searched(
    opts: Options,
    addr: u32,
    mem: Memory,
    write: u32,
    rx: RxView,
    ctrl: HostCtrl,
    packet: RxPacketView,
)
    requires
        ring_pointer(rx.pointer),
        at_pointer(write, rx, packet),
    ensures
        ({
            let all = packet_and_more(addr, mem, write, rx, packet);
            &&& keeps(addr, mem, write, sample(opts, addr, rx, ctrl, packet), all)
            &&& keeps(addr, mem, write, searched(opts, addr, rx, ctrl, packet), all)
        }),
{
    let all = packet_and_more(addr, mem, write, rx, packet);
    if opts.rx_byte_probe {
        let kept = RxView { bytes: rx.bytes.counted(), ..rx };
        lemma_probes(opts, addr, mem, write, kept, ctrl, packet);
    } else {
        lemma_finish(opts, addr, mem, write, rx, ctrl, packet);
    }
    lemma_keeps_after(
        addr,
        mem,
        write,
        sample(opts, addr, rx, ctrl, packet),
        logged(rx.sentinel.summary()),
        all,
    );
}

proof fn lemma_reread(
    opts: Options,
    addr: u32,
    mem: Memory,
    write: u32,
    rx: RxView,
    ctrl: HostCtrl,
    packet: RxPacketView,
)
    requires
        ring_pointer(rx.pointer),
        at_pointer(write, rx, packet),
    ensures
        ({
            let all = packet_and_more(addr, mem, write, rx, packet);
            &&& keeps(addr, mem, write, search(opts, addr, rx, ctrl, packet), all)
            &&& keeps(addr, mem, write, reread(opts, addr, rx, ctrl, packet), all)
        }),
{
    let all = packet_and_more(addr, mem, write, rx, packet);
    if opts.rx_sentinel_probe {
        let valid = packet.valid();
        let kept = RxView {
            sentinel: rx.sentinel.observed(packet.kind, valid, packet.start),
            ..rx
        };
        if rx.sentinel.found(packet.kind, valid, packet.start) is Some {
            lemma_keeps_quietly(addr, mem, write, search(opts, addr, rx, ctrl, packet), all);
        } else {
            lemma_searched(opts, addr, mem, write, kept, ctrl, packet);
        }
    } else {
        lemma_searched(opts, addr, mem, write, rx, ctrl, packet);
    }
    lemma_keeps_after(
        addr,
        mem,
        write,
        search(opts, addr, rx, ctrl, packet),
        logged(rx.readback.summary()),
        all,
    );
}

proof fn lemma_received(
    opts: Options,
    addr: u32,
    mem: Memory,
    write: u32,
    rx: RxView,
    ctrl: HostCtrl,
    packet: RxPacketView,
)
    requires
        ring_pointer(rx.pointer),
        at_pointer(write, rx, packet),
    ensures
        keeps(
            addr,
            mem,
            write,
            received(opts, addr, rx, ctrl, packet),
            packet_and_more(addr, mem, write, rx, packet),
        ),
{
    let all = packet_and_more(addr, mem, write, rx, packet);
    let kept = RxView { readback: rx.readback.counted(), ..rx };
    lemma_reread(opts, addr, mem, write, rx, ctrl, packet);
    lemma_reread(opts, addr, mem, write, kept, ctrl, packet);
    if opts.rx_readback_probe && kept.readback.due() {
        lemma_chunks_quiet(rx_base(addr), packet.start, packet.payload.len() as int);
        lemma_keeps_quietly(addr, mem, write, received(opts, addr, rx, ctrl, packet), all);
    }
}

proof fn lemma_compared(
    opts: Options,
    addr: u32,
    mem: Memory,
    write: u32,
    rx: RxView,
    ctrl: HostCtrl,
    packet: RxPacketView,
    again: Seq<u8>,
)
    requires
        ring_pointer(rx.pointer),
        at_pointer(write, rx, packet),
    ensures
        keeps(
            addr,
            mem,
            write,
            compared(opts, addr, rx, ctrl, packet, again),
            packet_and_more(addr, mem, write, rx, packet),
        ),
{
    let all = packet_and_more(addr, mem, write, rx, packet);
    let step = compared(opts, addr, rx, ctrl, packet, again);
    if diff_of(packet.payload, again).mismatches != 0 {
        lemma_keeps_quietly(addr, mem, write, step, all);
    } else {
        lemma_reread(opts, addr, mem, write, rx, ctrl, packet);
    }
}

proof fn lemma_difference_shown(
    opts: Options,
    addr: u32,
    mem: Memory,
    write: u32,
    rx: RxView,
    ctrl: HostCtrl,
    packet: RxPacketView,
    diff: Diff,
    single: u8,
)
    requires
        ring_pointer(rx.pointer),
        at_pointer(write, rx, packet),
    ensures
        keeps(
            addr,
            mem,
            write,
            difference_shown(opts, addr, rx, ctrl, packet, diff, single),
            packet_and_more(addr, mem, write, rx, packet),
        ),
{
    let all = packet_and_more(addr, mem, write, rx, packet);
    let report = difference_report(rx.readback, packet, diff, single);
    lemma_reread(opts, addr, mem, write, rx, ctrl, packet);
    lemma_keeps_after(
        addr,
        mem,
        write,
        reread(opts, addr, rx, ctrl, packet),
        seq![ActionView::Log { report }],
        all,
    );
}

proof fn lemma_damage_shown(
    opts: Options,
    addr: u32,
    mem: Memory,
    write: u32,
    rx: RxView,
    ctrl: HostCtrl,
    packet: RxPacketView,
    hit: SentinelHit,
    single: u8,
)
    requires
        ring_pointer(rx.pointer),
        at_pointer(write, rx, packet),
    ensures
        keeps(
            addr,
            mem,
            write,
            damage_shown(opts, addr, rx, ctrl, packet, hit, single),
            packet_and_more(addr, mem, write, rx, packet),
        ),
{
    let all = packet_and_more(addr, mem, write, rx, packet);
    let report = Report::SentinelBad {
        acl_offset: hit.acl_offset,
        cross_boundary: hit.cross_boundary,
        tail_index: hit.tail_index,
        bulk: hit.bulk,
        single,
        ring_offset: hit.ring_offset,
        got_tail: hit.got_tail,
    };
    lemma_searched(opts, addr, mem, write, rx, ctrl, packet);
    lemma_keeps_after(
        addr,
        mem,
        write,
        searched(opts, addr, rx, ctrl, packet),
        seq![ActionView::Log { report }],
        all,
    );
}

proof fn lemma_pointed(
    opts: Options,
    addr: u32,
    mem: Memory,
    write: u32,
    rx: RxView,
    ctrl: HostCtrl,
    words: Seq<u32>,
)
    requires
        ring_pointer(rx.pointer),
        words.last() == write,
    ensures
        ({
            let all = packets_in_ring(
                mem,
                rx_base(addr) as int,
                rx.pointer,
                ring_used(rx.pointer, write),
            );
            keeps(addr, mem, write, pointed(opts, addr, rx, ctrl, words), all)
        }),
{
    let all = packets_in_ring(mem, rx_base(addr) as int, rx.pointer, ring_used(rx.pointer, write));
    let step = pointed(opts, addr, rx, ctrl, words);
    if pointer_value(opts, words) is Ok {
        lemma_mod_bound(write - rx.pointer, BTSDIO_FWBUF_SIZE as int);
        lemma_keeps_quietly(addr, mem, write, step, all);
    }
}

proof fn lemma_framed(
    addr: u32,
    mem: Memory,
    write: u32,
    rx: RxView,
    ctrl: HostCtrl,
    available: u32,
)
    requires
        ring_pointer(rx.pointer),
        available == ring_used(rx.pointer, write),
    ensures
        ({
            let base = rx_base(addr) as int;
            let all = packets_in_ring(mem, base, rx.pointer, ring_used(rx.pointer, write));
            let header = ring_loaded(mem, base, rx.pointer as int, 4);
            keeps(addr, mem, write, framed(addr, rx, ctrl, available, header), all)
        }),
{
    let base = rx_base(addr) as int;
    let all = packets_in_ring(mem, base, rx.pointer, ring_used(rx.pointer, write));
    let header = ring_loaded(mem, base, rx.pointer as int, 4);
    let step = framed(addr, rx, ctrl, available, header);
    let rounded = padded_len(header_len(header));
    if available >= 4 + rounded && rounded < BT_HCI_MTU {
        lemma_used_less(rx.pointer, write, 4);
    }
    if !(step.stage is Failed) {
        lemma_keeps_quietly(addr, mem, write, step, all);
    }
}

proof fn lemma_published(
    opts: Options,
    addr: u32,
    mem: Memory,
    write: u32,
    rx: RxView,
    ctrl: HostCtrl,
    packet: RxPacketView,
    pointer: PointerWrite,
    got: u32,
)
    requires
        ring_pointer(rx.pointer),
    ensures
        keeps(
            addr,
            mem,
            write,
            published(opts, addr, rx, ctrl, packet, pointer, got),
            owed(addr, mem, write, rx, RxStageView::Publishing { packet, write: pointer }),
        ),
{
    let stage = RxStageView::Publishing { packet, write: pointer };
    let all = owed(addr, mem, write, rx, stage);
    let step = published(opts, addr, rx, ctrl, packet, pointer, got);
    let acts = pointer.next_acts(opts, got);
    match pointer.next_stage(opts, got) {
        PointerStage::Done => {
            lemma_submit(opts, addr, mem, write, rx, ctrl, packet);
            lemma_keeps_after(addr, mem, write, submit(opts, addr, rx, ctrl, packet), acts, all);
        },
        PointerStage::Failed(_) => {},
        _ => {
            lemma_keeps_quietly(addr, mem, write, step, all);
        },
    }
}

proof fn lemma_signalling(
    opts: Options,
    addr: u32,
    mem: Memory,
    write: u32,
    rx: RxView,
    ctrl: HostCtrl,
    update: HostCtrlUpdate,
    words: Seq<u32>,
)
    requires
        ring_pointer(rx.pointer),
    ensures
        keeps(
            addr,
            mem,
            write,
            signalling(opts, addr, rx, ctrl, update, words),
            owed(addr, mem, write, rx, RxStageView::Signalling(update)),
        ),
{
    let first = update_next(opts, ctrl, update, words);
    let after = HostCtrlUpdate { change: update.change, stage: first.stage };
    lemma_update_quiet(opts, ctrl, update, words);
    lemma_signalled(opts, addr, mem, write, rx, first.ctrl, after);
    lemma_keeps_after(
        addr,
        mem,
        write,
        signalled(opts, addr, rx, first.ctrl, after),
        first.acts,
        owed(addr, mem, write, rx, RxStageView::Signalling(update)),
    );
}

proof fn lemma_checked(
    opts: Options,
    addr: u32,
    mem: Memory,
    write: u32,
    rx: RxView,
    ctrl: HostCtrl,
    status: u32,
)
    requires
        ring_pointer(rx.pointer),
    ensures
        ({
            let step = checked(opts, addr, rx, ctrl, status);
            let all = packets_in_ring(
                mem,
                rx_base(addr) as int,
                rx.pointer,
                ring_used(rx.pointer, write),
            );
            &&& consistent(write, step.rx, step.stage)
            &&& submitted(step.acts) + owed(addr, mem, write, step.rx, step.stage) == all
            &&& !(step.stage is Checking)
        }),
{
    let step = checked(opts, addr, rx, ctrl, status);
    lemma_nothing_submitted(step.acts);
    let all = packets_in_ring(mem, rx_base(addr) as int, rx.pointer, ring_used(rx.pointer, write));
    assert(Seq::<Seq<u8>>::empty() + all =~= all);
}

/// Nothing is lost and nothing is handed over twice: as long as the Bluetooth
/// core adds nothing, each step hands over the first packets of those that are
/// owed, and the others stay owed. Once an interrupt was raised, its status is not
/// looked at again, and the work is done only when nothing is owed any more.
pub proof fn law_nothing_is_lost(
    opts: Options,
    addr: u32,
    mem: Memory,
    write: u32,
    rx: RxView,
    ctrl: HostCtrl,
    stage: RxStageView,
    replies: Seq<Reply>,
)
    requires
        !(stage is Done),
        consistent(write, rx, stage),
        truthful(opts, addr, mem, write, rx, stage, replies),
    ensures
        ({
            let step = rx_next(opts, addr, rx, ctrl, stage, replies);
            let left = owed(addr, mem, write, step.rx, step.stage);
            step.stage is Failed || {
                &&& consistent(write, step.rx, step.stage)
                &&& submitted(step.acts) + left == owed(addr, mem, write, rx, stage)
                &&& step.stage is Done && !(stage is Checking) ==> left == Seq::<Seq<u8>>::empty()
                &&& !(step.stage is Checking)
            }
        }),
{
    match stage {
        RxStageView::Checking => {
            lemma_checked(opts, addr, mem, write, rx, ctrl, word_of(replies[0]));
        },
        RxStageView::Polling => {
            lemma_pointed(opts, addr, mem, write, rx, ctrl, pointer_words(opts, replies, 0));
        },
        RxStageView::ReadingHeader { available } => {
            lemma_framed(addr, mem, write, rx, ctrl, available);
        },
        RxStageView::ReadingPayload { kind, len } => {
            let packet = RxPacketView { kind, len, start: rx.pointer, payload: joined(replies) };
            lemma_received(opts, addr, mem, write, rx, ctrl, packet);
        },
        RxStageView::ReadingTwice(packet) => {
            lemma_compared(opts, addr, mem, write, rx, ctrl, packet, joined(replies));
        },
        RxStageView::Differing { packet, diff } => {
            let single = byte_of(replies[0]);
            lemma_difference_shown(opts, addr, mem, write, rx, ctrl, packet, diff, single);
        },
        RxStageView::Damaged { packet, hit } => {
            let single = byte_of(replies[0]);
            lemma_damage_shown(opts, addr, mem, write, rx, ctrl, packet, hit, single);
        },
        RxStageView::Probing { packet, byte } => {
            let single = byte_of(replies[0]);
            lemma_probed(opts, addr, mem, write, rx, ctrl, packet, byte, single);
        },
        RxStageView::Publishing { packet, write: pointer } => {
            lemma_published(opts, addr, mem, write, rx, ctrl, packet, pointer, word_of(replies[0]));
        },
        RxStageView::Signalling(update) => {
            lemma_signalling(opts, addr, mem, write, rx, ctrl, update, words_of(replies));
        },
        _ => {},
    }
}

/// Where receiving packets gets to with the replies of some rounds, and all the
/// actions asked for on the way.
pub open spec fn rx_run(
    opts: Options,
    addr: u32,
    rx: RxView,
    ctrl: HostCtrl,
    stage: RxStageView,
    rounds: Seq<Seq<Reply>>,
) -> RxStep
    decreases rounds.len(),
{
    if rounds.len() == 0 {
        RxStep { rx, ctrl, stage, acts: seq![] }
    } else {
        let before = rx_run(opts, addr, rx, ctrl, stage, rounds.drop_last());
        rx_next(opts, addr, before.rx, before.ctrl, before.stage, rounds.last()).after(before.acts)
    }
}

/// Whether the replies of each round tell what memory holds.
pub open spec fn truthful_run(
    opts: Options,
    addr: u32,
    mem: Memory,
    write: u32,
    rx: RxView,
    ctrl: HostCtrl,
    stage: RxStageView,
    rounds: Seq<Seq<Reply>>,
) -> bool
    decreases rounds.len(),
{
    rounds.len() > 0 ==> {
        let before = rx_run(opts, addr, rx, ctrl, stage, rounds.drop_last());
        &&& truthful_run(opts, addr, mem, write, rx, ctrl, stage, rounds.drop_last())
        &&& truthful(opts, addr, mem, write, before.rx, before.stage, rounds.last())
    }
}

/// After an interrupt, all the packets in the ring are handed over, in order.
pub proof fn law_interrupt_empties_ring(
    opts: Options,
    addr: u32,
    mem: Memory,
    write: u32,
    rx: RxView,
    ctrl: HostCtrl,
    rounds: Seq<Seq<Reply>>,
)
    requires
        ring_pointer(rx.pointer),
        truthful_run(opts, addr, mem, write, rx, ctrl, RxStageView::Polling, rounds),
    ensures
        ({
            let run = rx_run(opts, addr, rx, ctrl, RxStageView::Polling, rounds);
            let all = packets_in_ring(
                mem,
                rx_base(addr) as int,
                rx.pointer,
                ring_used(rx.pointer, write),
            );
            let left = owed(addr, mem, write, run.rx, run.stage);
            run.stage is Failed || {
                &&& consistent(write, run.rx, run.stage)
                &&& submitted(run.acts) + left == all
                &&& run.stage is Done ==> submitted(run.acts) == all
                &&& run.stage is Done ==> left == Seq::<Seq<u8>>::empty()
                &&& !(run.stage is Checking)
            }
        }),
    decreases rounds.len(),
{
    let stage = RxStageView::Polling;
    let run = rx_run(opts, addr, rx, ctrl, stage, rounds);
    let all = packets_in_ring(mem, rx_base(addr) as int, rx.pointer, ring_used(rx.pointer, write));
    if rounds.len() == 0 {
        assert(Seq::<Seq<u8>>::empty() + all =~= all);
    } else {
        let before = rx_run(opts, addr, rx, ctrl, stage, rounds.drop_last());
        law_interrupt_empties_ring(opts, addr, mem, write, rx, ctrl, rounds.drop_last());
        let step = rx_next(opts, addr, before.rx, before.ctrl, before.stage, rounds.last());
        if before.stage is Done {
            assert(step.acts =~= seq![]);
            assert(run.acts =~= before.acts);
        } else if !(before.stage is Failed) {
            law_nothing_is_lost(
                opts,
                addr,
                mem,
                write,
                before.rx,
                before.ctrl,
                before.stage,
                rounds.last(),
            );
            law_submitted_in_turn(before.acts, step.acts);
            let left = owed(addr, mem, write, run.rx, run.stage);
            assert(submitted(before.acts) + submitted(step.acts) + left =~= submitted(before.acts) + (
            submitted(step.acts) + left));
        }
        if run.stage is Done && !(step.stage is Failed) {
            let left = owed(addr, mem, write, run.rx, run.stage);
            assert(submitted(run.acts) + left =~= submitted(run.acts));
        }
    }
}

/// Replies that come out of memory tell what it holds.
pub proof fn law_memory_is_truthful(
    opts: Options,
    addr: u32,
    mem: Memory,
    write: u32,
    rx: RxView,
    stage: RxStageView,
    replies: Seq<Reply>,
)
    requires
        addr <= MAX_RAM_BASE,
        ring_pointer(rx.pointer),
        consistent(write, rx, stage),
        (match stage {
            RxStageView::Polling => pointer_words(opts, replies, 0).last() == write,
            RxStageView::ReadingHeader { .. } => blocks_of_memory(
                mem,
                ring_reads(rx_base(addr), rx.pointer, 4),
                replies,
            ),
            RxStageView::ReadingPayload { kind, len } => blocks_of_memory(
                mem,
                ring_reads(rx_base(addr), rx.pointer, padded_len(len as int)),
                replies,
            ),
            _ => true,
        }),
    ensures
        truthful(opts, addr, mem, write, rx, stage, replies),
{
    match stage {
        RxStageView::ReadingHeader { .. } => {
            law_ring_reads_load(mem, rx_base(addr), rx.pointer, 4, replies);
        },
        RxStageView::ReadingPayload { kind, len } => {
            let n = padded_len(len as int) as nat;
            law_ring_reads_load(mem, rx_base(addr), rx.pointer, n, replies);
        },
        _ => {},
    }
}

/// A packet that was put into a ring as a frame is the first packet found there.
pub proof fn law_framed_packet_is_found(mem: Memory, base: int, p: u32, packet: BtPacketBuf, n: int)
    requires
        ring_pointer(p),
        1 <= packet.len,
        1 + padded_len(body_len(packet)) <= BT_HCI_MTU,
        frame_len(packet) <= n,
    ensures
        ({
            let written = ring_stored(
                ring_stored(mem, base, p as int, packet_header(packet)),
                base,
                ring_moved(p, 4) as int,
                packet_payload(packet),
            );
            packets_in_ring(written, base, p, n) == seq![packet@] + packets_in_ring(
                written,
                base,
                ring_moved(ring_moved(p, 4), padded_len(body_len(packet))),
                n - frame_len(packet),
            )
        }),
{
    let len = body_len(packet);
    let kind = packet.buf@[0];
    let payload = packet_payload(packet);
    law_frame_round_trip(mem, base, p, len, kind, payload);
    assert(packet@ =~= seq![kind] + payload.take(len));
}

} // verus!
