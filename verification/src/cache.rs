//! The cached value of the host control register is the value of the register,
//! except that the interrupt after a sent packet goes past the cache.

use vstd::prelude::*;

use crate::action::{byte_of, logged, optional, word_of, words_of, ActionView, Reply};
use crate::consts::{
    BTSDIO_FWBUF_SIZE, BTSDIO_OFFSET_BT2HOST_IN, BTSDIO_OFFSET_BT2HOST_OUT, HOST_CTRL_REG_ADDR,
    MAX_RAM_BASE,
};
use crate::diff::{diff_of, Diff};
use crate::host_ctrl::{
    law_cache_follows_register, register, signal_change, update_begin, update_next, HostCtrl,
    HostCtrlChange, HostCtrlUpdate,
};
use crate::memory::{law_performed_in_turn, law_word_written, performed_all, Memory};
use crate::options::Options;
use crate::pointer::{pointer_reports, pointer_words, PointerWrite};
use crate::probe::{chunk_len, chunk_reads, ProbedByte};
use crate::ring::{joined, ring_moved, ring_reads};
use crate::rx::{
    checked, compared, damage_shown, difference_report, finish, framed, out_write, pointed,
    probe_o4, probe_o9, probed, published, received, reread, rx_base, rx_next, sample, sampled,
    search, searched, signalled, signalling, submit, RxPacketView, RxStageView, RxStep, RxView,
    BT_RING_RX_OUT_DELAY_US,
};
use crate::sentinel::SentinelHit;
use crate::tx::{tx_next, TxStage, TxState};

verus! {

/// Whether an action leaves the host control register alone.
pub open spec fn spares(action: ActionView) -> bool {
    match action {
        ActionView::Write32 { addr, value } => {
            addr + 4 <= HOST_CTRL_REG_ADDR || HOST_CTRL_REG_ADDR + 4 <= addr
        },
        ActionView::WriteBlock { addr, data } => {
            addr + data.len() <= HOST_CTRL_REG_ADDR || HOST_CTRL_REG_ADDR + 4 <= addr
        },
        _ => true,
    }
}

/// Whether each of some actions leaves the host control register alone.
pub open spec fn spare(acts: Seq<ActionView>) -> bool {
    forall|i: int| 0 <= i < acts.len() ==> spares(#[trigger] acts[i])
}

/// Whether some actions take a register with the cached value before to one with
/// the cached value after.
pub open spec fn follow(before: HostCtrl, acts: Seq<ActionView>, after: HostCtrl) -> bool {
    forall|mem: Memory|
        register(mem) == before.cache ==> register(#[trigger] performed_all(mem, acts)) == after.cache
}

proof fn lemma_spared(mem: Memory, acts: Seq<ActionView>)
    requires
        spare(acts),
    ensures
        register(performed_all(mem, acts)) == register(mem),
    decreases acts.len(),
{
    if acts.len() > 0 {
        lemma_spared(mem, acts.drop_last());
        assert(spares(acts[acts.len() - 1]));
    }
}

proof fn lemma_follow_around(
    before: HostCtrl,
    first: Seq<ActionView>,
    acts: Seq<ActionView>,
    last: Seq<ActionView>,
    after: HostCtrl,
)
    requires
        spare(first),
        spare(last),
        follow(before, acts, after),
    ensures
        follow(before, first + acts + last, after),
{
    assert forall|mem: Memory| register(mem) == before.cache implies register(
        #[trigger] performed_all(mem, first + acts + last),
    ) == after.cache by {
        law_performed_in_turn(mem, first + acts, last);
        law_performed_in_turn(mem, first, acts);
        lemma_spared(mem, first);
        let middle = performed_all(mem, first);
        lemma_spared(performed_all(middle, acts), last);
    }
}

proof fn lemma_follow_spared(ctrl: HostCtrl, acts: Seq<ActionView>)
    requires
        spare(acts),
    ensures
        follow(ctrl, acts, ctrl),
{
    assert forall|mem: Memory| register(mem) == ctrl.cache implies register(
        #[trigger] performed_all(mem, acts),
    ) == ctrl.cache by {
        lemma_spared(mem, acts);
    }
}

proof fn lemma_update_follows(
    opts: Options,
    ctrl: HostCtrl,
    update: HostCtrlUpdate,
    words: Seq<u32>,
)
    ensures
        ({
            let step = update_begin(opts, ctrl, update.change);
            follow(ctrl, step.acts, step.ctrl)
        }),
        ({
            let step = update_next(opts, ctrl, update, words);
            follow(ctrl, step.acts, step.ctrl)
        }),
{
    let begin = update_begin(opts, ctrl, update.change);
    let next = update_next(opts, ctrl, update, words);
    assert forall|mem: Memory| register(mem) == ctrl.cache implies register(
        #[trigger] performed_all(mem, begin.acts),
    ) == begin.ctrl.cache by {
        law_cache_follows_register(opts, ctrl, update, words, mem);
    }
    assert forall|mem: Memory| register(mem) == ctrl.cache implies register(
        #[trigger] performed_all(mem, next.acts),
    ) == next.ctrl.cache by {
        law_cache_follows_register(opts, ctrl, update, words, mem);
    }
}

/// Whether a step takes a register with the cached value before it to one with
/// the cached value after it.
pub open spec fn rx_follows(ctrl: HostCtrl, step: RxStep) -> bool {
    follow(ctrl, step.acts, step.ctrl)
}

/// Whether the host's read pointer lies outside the host control register.
pub open spec fn pointer_outside(addr: u32) -> bool {
    let at = addr + BTSDIO_OFFSET_BT2HOST_OUT;
    at + 4 <= HOST_CTRL_REG_ADDR || HOST_CTRL_REG_ADDR + 4 <= at
}

proof fn lemma_rx_after(ctrl: HostCtrl, step: RxStep, acts: Seq<ActionView>)
    requires
        spare(acts),
        rx_follows(ctrl, step),
    ensures
        rx_follows(ctrl, step.after(acts)),
{
    lemma_follow_around(ctrl, acts, step.acts, seq![], step.ctrl);
    assert(acts + step.acts + seq![] =~= acts + step.acts);
}

proof fn lemma_submit_follows(
    opts: Options,
    addr: u32,
    rx: RxView,
    ctrl: HostCtrl,
    packet: RxPacketView,
)
    ensures
        rx_follows(ctrl, submit(opts, addr, rx, ctrl, packet)),
{
    let change = signal_change(opts);
    let step = update_begin(opts, ctrl, change);
    let update = HostCtrlUpdate { change, stage: step.stage };
    let next = signalled(opts, addr, rx, step.ctrl, update);
    let whole = submit(opts, addr, rx, ctrl, packet);
    let first = whole.acts.take(whole.acts.len() - step.acts.len() - next.acts.len());
    lemma_update_follows(opts, ctrl, update, seq![]);
    assert(whole.acts =~= first + step.acts + next.acts);
    lemma_follow_around(ctrl, first, step.acts, next.acts, step.ctrl);
}

proof fn lemma_finish_follows(
    opts: Options,
    addr: u32,
    rx: RxView,
    ctrl: HostCtrl,
    packet: RxPacketView,
)
    requires
        addr <= MAX_RAM_BASE,
        pointer_outside(addr),
    ensures
        rx_follows(ctrl, finish(opts, addr, rx, ctrl, packet)),
{
    let moved = RxView { pointer: ring_moved(rx.pointer, packet.payload.len() as int), ..rx };
    if opts.pointer_write_readback {
        lemma_follow_spared(ctrl, finish(opts, addr, rx, ctrl, packet).acts);
    } else {
        let delay = optional(
            opts.rx_out_delay,
            ActionView::Delay { micros: BT_RING_RX_OUT_DELAY_US },
        );
        let write = out_write(opts, addr, moved.pointer);
        lemma_submit_follows(opts, addr, moved, ctrl, packet);
        lemma_rx_after(
            ctrl,
            submit(opts, addr, moved, ctrl, packet),
            delay + seq![write.write()],
        );
    }
}

proof fn lemma_probes_follow(
    opts: Options,
    addr: u32,
    rx: RxView,
    ctrl: HostCtrl,
    packet: RxPacketView,
)
    requires
        addr <= MAX_RAM_BASE,
        pointer_outside(addr),
    ensures
        rx_follows(ctrl, sampled(opts, addr, rx, ctrl, packet)),
        rx_follows(ctrl, probe_o9(opts, addr, rx, ctrl, packet)),
        rx_follows(ctrl, probe_o4(opts, addr, rx, ctrl, packet)),
{
    lemma_finish_follows(opts, addr, rx, ctrl, packet);
    lemma_rx_after(ctrl, finish(opts, addr, rx, ctrl, packet), logged(rx.bytes.summary()));
    if packet.len > ProbedByte::O9.at() {
        lemma_follow_spared(ctrl, probe_o9(opts, addr, rx, ctrl, packet).acts);
    }
    if packet.len > ProbedByte::O4.at() {
        lemma_follow_spared(ctrl, probe_o4(opts, addr, rx, ctrl, packet).acts);
    }
}

proof fn lemma_sample_follows(
    opts: Options,
    addr: u32,
    rx: RxView,
    ctrl: HostCtrl,
    packet: RxPacketView,
)
    requires
        addr <= MAX_RAM_BASE,
        pointer_outside(addr),
    ensures
        rx_follows(ctrl, sample(opts, addr, rx, ctrl, packet)),
        rx_follows(ctrl, searched(opts, addr, rx, ctrl, packet)),
{
    if opts.rx_byte_probe {
        lemma_probes_follow(opts, addr, RxView { bytes: rx.bytes.counted(), ..rx }, ctrl, packet);
    } else {
        lemma_finish_follows(opts, addr, rx, ctrl, packet);
    }
    lemma_rx_after(ctrl, sample(opts, addr, rx, ctrl, packet), logged(rx.sentinel.summary()));
}

proof fn lemma_search_follows(
    opts: Options,
    addr: u32,
    rx: RxView,
    ctrl: HostCtrl,
    packet: RxPacketView,
)
    requires
        addr <= MAX_RAM_BASE,
        pointer_outside(addr),
    ensures
        rx_follows(ctrl, search(opts, addr, rx, ctrl, packet)),
        rx_follows(ctrl, reread(opts, addr, rx, ctrl, packet)),
{
    let valid = packet.valid();
    let kept = RxView {
        sentinel: rx.sentinel.observed(packet.kind, valid, packet.start),
        ..rx
    };
    if !opts.rx_sentinel_probe {
        lemma_sample_follows(opts, addr, rx, ctrl, packet);
    } else if rx.sentinel.found(packet.kind, valid, packet.start) is Some {
        lemma_follow_spared(ctrl, search(opts, addr, rx, ctrl, packet).acts);
    } else {
        lemma_sample_follows(opts, addr, kept, ctrl, packet);
    }
    lemma_rx_after(ctrl, search(opts, addr, rx, ctrl, packet), logged(rx.readback.summary()));
}

proof fn lemma_chunks_spare(base: u32, p: u32, n: int)
    ensures
        spare(chunk_reads(base, p, n)),
    decreases n,
{
    if n > 0 && p < BTSDIO_FWBUF_SIZE {
        let k = chunk_len(p, n);
        lemma_chunks_spare(base, ring_moved(p, k), n - k);
    }
}

proof fn lemma_received_follows(
    opts: Options,
    addr: u32,
    rx: RxView,
    ctrl: HostCtrl,
    packet: RxPacketView,
)
    requires
        addr <= MAX_RAM_BASE,
        pointer_outside(addr),
    ensures
        rx_follows(ctrl, received(opts, addr, rx, ctrl, packet)),
{
    let kept = RxView { readback: rx.readback.counted(), ..rx };
    if !opts.rx_readback_probe {
        lemma_search_follows(opts, addr, rx, ctrl, packet);
    } else if kept.readback.due() {
        lemma_chunks_spare(rx_base(addr), packet.start, packet.payload.len() as int);
        lemma_follow_spared(ctrl, received(opts, addr, rx, ctrl, packet).acts);
    } else {
        lemma_search_follows(opts, addr, kept, ctrl, packet);
    }
}

/// Whether a step of receiving packets keeps the register and its cached value
/// together.
#[verifier::opaque]
spec fn rx_next_follows(
    opts: Options,
    addr: u32,
    rx: RxView,
    ctrl: HostCtrl,
    stage: RxStageView,
    replies: Seq<Reply>,
) -> bool {
    rx_follows(ctrl, rx_next(opts, addr, rx, ctrl, stage, replies))
}

proof fn lemma_checked_follows(
    opts: Options,
    addr: u32,
    rx: RxView,
    ctrl: HostCtrl,
    replies: Seq<Reply>,
)
    requires
        addr <= MAX_RAM_BASE,
        pointer_outside(addr),
    ensures
        rx_next_follows(opts, addr, rx, ctrl, RxStageView::Checking, replies),
{
    let step = checked(opts, addr, rx, ctrl, word_of(replies[0]));
    lemma_follow_spared(ctrl, step.acts);
    reveal(rx_next_follows);
}

proof fn lemma_pointed_follows(
    opts: Options,
    addr: u32,
    rx: RxView,
    ctrl: HostCtrl,
    replies: Seq<Reply>,
)
    requires
        addr <= MAX_RAM_BASE,
        pointer_outside(addr),
    ensures
        rx_next_follows(opts, addr, rx, ctrl, RxStageView::Polling, replies),
{
    let words = pointer_words(opts, replies, 0);
    let reports = pointer_reports(BTSDIO_OFFSET_BT2HOST_IN, words);
    let reads = ring_reads(rx_base(addr), rx.pointer, 4);
    assert(spare(reports));
    assert(spare(reads));
    assert(spare(reports + reads));
    lemma_follow_spared(ctrl, pointed(opts, addr, rx, ctrl, words).acts);
    reveal(rx_next_follows);
}

proof fn lemma_framed_follows(
    opts: Options,
    addr: u32,
    rx: RxView,
    ctrl: HostCtrl,
    available: u32,
    replies: Seq<Reply>,
)
    requires
        addr <= MAX_RAM_BASE,
        pointer_outside(addr),
    ensures
        rx_next_follows(opts, addr, rx, ctrl, RxStageView::ReadingHeader { available }, replies),
{
    let step = framed(addr, rx, ctrl, available, joined(replies));
    lemma_follow_spared(ctrl, step.acts);
    reveal(rx_next_follows);
}

proof fn lemma_payload_follows(
    opts: Options,
    addr: u32,
    rx: RxView,
    ctrl: HostCtrl,
    kind: u8,
    len: u32,
    replies: Seq<Reply>,
)
    requires
        addr <= MAX_RAM_BASE,
        pointer_outside(addr),
    ensures
        rx_next_follows(opts, addr, rx, ctrl, RxStageView::ReadingPayload { kind, len }, replies),
{
    let packet = RxPacketView { kind, len, start: rx.pointer, payload: joined(replies) };
    lemma_received_follows(opts, addr, rx, ctrl, packet);
    reveal(rx_next_follows);
}

proof fn lemma_compared_follows(
    opts: Options,
    addr: u32,
    rx: RxView,
    ctrl: HostCtrl,
    packet: RxPacketView,
    replies: Seq<Reply>,
)
    requires
        addr <= MAX_RAM_BASE,
        pointer_outside(addr),
    ensures
        rx_next_follows(opts, addr, rx, ctrl, RxStageView::ReadingTwice(packet), replies),
{
    let step = compared(opts, addr, rx, ctrl, packet, joined(replies));
    lemma_search_follows(opts, addr, rx, ctrl, packet);
    if step.stage is Differing && diff_of(packet.payload, joined(replies)).mismatches != 0 {
        lemma_follow_spared(ctrl, step.acts);
    }
    reveal(rx_next_follows);
}

proof fn lemma_difference_follows(
    opts: Options,
    addr: u32,
    rx: RxView,
    ctrl: HostCtrl,
    packet: RxPacketView,
    diff: Diff,
    replies: Seq<Reply>,
)
    requires
        addr <= MAX_RAM_BASE,
        pointer_outside(addr),
    ensures
        rx_next_follows(opts, addr, rx, ctrl, RxStageView::Differing { packet, diff }, replies),
{
    let report = difference_report(rx.readback, packet, diff, byte_of(replies[0]));
    lemma_search_follows(opts, addr, rx, ctrl, packet);
    lemma_rx_after(
        ctrl,
        reread(opts, addr, rx, ctrl, packet),
        seq![ActionView::Log { report }],
    );
    reveal(rx_next_follows);
}

proof fn lemma_damage_follows(
    opts: Options,
    addr: u32,
    rx: RxView,
    ctrl: HostCtrl,
    packet: RxPacketView,
    hit: SentinelHit,
    replies: Seq<Reply>,
)
    requires
        addr <= MAX_RAM_BASE,
        pointer_outside(addr),
    ensures
        rx_next_follows(opts, addr, rx, ctrl, RxStageView::Damaged { packet, hit }, replies),
{
    let step = damage_shown(opts, addr, rx, ctrl, packet, hit, byte_of(replies[0]));
    let next = searched(opts, addr, rx, ctrl, packet);
    let logs = step.acts.take(1);
    lemma_sample_follows(opts, addr, rx, ctrl, packet);
    lemma_rx_after(ctrl, next, logs);
    assert(step.acts =~= logs + next.acts);
    reveal(rx_next_follows);
}

proof fn lemma_probed_follows(
    opts: Options,
    addr: u32,
    rx: RxView,
    ctrl: HostCtrl,
    packet: RxPacketView,
    byte: ProbedByte,
    replies: Seq<Reply>,
)
    requires
        addr <= MAX_RAM_BASE,
        pointer_outside(addr),
    ensures
        rx_next_follows(opts, addr, rx, ctrl, RxStageView::Probing { packet, byte }, replies),
{
    let single = byte_of(replies[0]);
    let differs = packet.payload[byte.at() as int] != single;
    let kept = RxView { bytes: rx.bytes.checked(byte, differs), ..rx };
    let next = match byte {
        ProbedByte::O4 => probe_o9(opts, addr, kept, ctrl, packet),
        ProbedByte::O9 => sampled(opts, addr, kept, ctrl, packet),
    };
    let step = probed(opts, addr, rx, ctrl, packet, byte, single);
    let logs = step.acts.take(step.acts.len() - next.acts.len());
    lemma_probes_follow(opts, addr, kept, ctrl, packet);
    assert(step.acts =~= logs + next.acts);
    lemma_rx_after(ctrl, next, logs);
    reveal(rx_next_follows);
}

proof fn lemma_published_follows(
    opts: Options,
    addr: u32,
    rx: RxView,
    ctrl: HostCtrl,
    packet: RxPacketView,
    write: PointerWrite,
    replies: Seq<Reply>,
)
    requires
        addr <= MAX_RAM_BASE,
        pointer_outside(addr),
    ensures
        rx_next_follows(opts, addr, rx, ctrl, RxStageView::Publishing { packet, write }, replies),
{
    let got = word_of(replies[0]);
    let acts = write.next_acts(opts, got);
    lemma_submit_follows(opts, addr, rx, ctrl, packet);
    lemma_rx_after(ctrl, submit(opts, addr, rx, ctrl, packet), acts);
    lemma_follow_spared(ctrl, acts);
    assert(rx_follows(ctrl, published(opts, addr, rx, ctrl, packet, write, got)));
    reveal(rx_next_follows);
}

proof fn lemma_signalling_follows(
    opts: Options,
    addr: u32,
    rx: RxView,
    ctrl: HostCtrl,
    update: HostCtrlUpdate,
    replies: Seq<Reply>,
)
    requires
        addr <= MAX_RAM_BASE,
        pointer_outside(addr),
    ensures
        rx_next_follows(opts, addr, rx, ctrl, RxStageView::Signalling(update), replies),
{
    let words = words_of(replies);
    let first = update_next(opts, ctrl, update, words);
    let step = signalling(opts, addr, rx, ctrl, update, words);
    let more = step.acts.skip(first.acts.len() as int);
    let none = Seq::<ActionView>::empty();
    lemma_update_follows(opts, ctrl, update, words);
    assert(step.acts =~= none + first.acts + more);
    lemma_follow_around(ctrl, none, first.acts, more, first.ctrl);
    reveal(rx_next_follows);
}

/// Receiving packets keeps the host control register equal to its cached value.
pub proof fn law_receiving_keeps_cache(
    opts: Options,
    addr: u32,
    mem: Memory,
    rx: RxView,
    ctrl: HostCtrl,
    stage: RxStageView,
    replies: Seq<Reply>,
)
    requires
        addr <= MAX_RAM_BASE,
        pointer_outside(addr),
        register(mem) == ctrl.cache,
    ensures
        ({
            let step = rx_next(opts, addr, rx, ctrl, stage, replies);
            register(performed_all(mem, step.acts)) == step.ctrl.cache
        }),
{
    lemma_stages_follow(opts, addr, rx, ctrl, stage, replies);
    reveal(rx_next_follows);
}

proof fn lemma_stages_follow(
    opts: Options,
    addr: u32,
    rx: RxView,
    ctrl: HostCtrl,
    stage: RxStageView,
    replies: Seq<Reply>,
)
    requires
        addr <= MAX_RAM_BASE,
        pointer_outside(addr),
    ensures
        rx_next_follows(opts, addr, rx, ctrl, stage, replies),
{
    match stage {
        RxStageView::Checking => {
            lemma_checked_follows(opts, addr, rx, ctrl, replies);
        },
        RxStageView::Polling => {
            lemma_pointed_follows(opts, addr, rx, ctrl, replies);
        },
        RxStageView::ReadingHeader { available } => {
            lemma_framed_follows(opts, addr, rx, ctrl, available, replies);
        },
        RxStageView::ReadingPayload { kind, len } => {
            lemma_payload_follows(opts, addr, rx, ctrl, kind, len, replies);
        },
        RxStageView::ReadingTwice(packet) => {
            lemma_compared_follows(opts, addr, rx, ctrl, packet, replies);
        },
        RxStageView::Differing { packet, diff } => {
            lemma_difference_follows(opts, addr, rx, ctrl, packet, diff, replies);
        },
        RxStageView::Damaged { packet, hit } => {
            lemma_damage_follows(opts, addr, rx, ctrl, packet, hit, replies);
        },
        RxStageView::Probing { packet, byte } => {
            lemma_probed_follows(opts, addr, rx, ctrl, packet, byte, replies);
        },
        RxStageView::Publishing { packet, write } => {
            lemma_published_follows(opts, addr, rx, ctrl, packet, write, replies);
        },
        RxStageView::Signalling(update) => {
            lemma_signalling_follows(opts, addr, rx, ctrl, update, replies);
        },
        _ => {
            lemma_stopped_follows(opts, addr, rx, ctrl, stage, replies);
        },
    }
}

proof fn lemma_stopped_follows(
    opts: Options,
    addr: u32,
    rx: RxView,
    ctrl: HostCtrl,
    stage: RxStageView,
    replies: Seq<Reply>,
)
    requires
        stage is Done || stage is Failed,
    ensures
        rx_next_follows(opts, addr, rx, ctrl, stage, replies),
{
    lemma_follow_spared(ctrl, Seq::<ActionView>::empty());
    reveal(rx_next_follows);
}

/// The interrupt after a sent packet goes past the cache: it toggles the bit in
/// the register itself, and the cached value stays as it was.
pub proof fn law_interrupt_after_sending(
    opts: Options,
    addr: u32,
    mem: Memory,
    tx: TxState,
    ctrl: HostCtrl,
    replies: Seq<Reply>,
)
    requires
        word_of(replies[0]) == register(mem),
    ensures
        ({
            let step = tx_next(opts, addr, tx, ctrl, TxStage::Signalling, replies);
            &&& register(performed_all(mem, step.acts)) == HostCtrlChange::ToggleIntr.applied(
                register(mem),
            )
            &&& step.ctrl == ctrl
            &&& register(mem) == ctrl.cache ==> register(performed_all(mem, step.acts))
                != step.ctrl.cache
        }),
{
    let step = tx_next(opts, addr, tx, ctrl, TxStage::Signalling, replies);
    let old_value = register(mem);
    let value = HostCtrlChange::ToggleIntr.applied(old_value);
    let first = seq![ActionView::Write32 { addr: HOST_CTRL_REG_ADDR, value }];
    let last = seq![ActionView::ReleaseTx];
    assert(step.acts =~= first + last);
    law_performed_in_turn(mem, first, last);
    lemma_spared(performed_all(mem, first), last);
    assert(first.drop_last() =~= seq![]);
    reveal_with_fuel(performed_all, 2);
    law_word_written(mem, HOST_CTRL_REG_ADDR, value);
    assert(old_value ^ 0x0000_0002u32 != old_value) by (bit_vector);
}

} // verus!
