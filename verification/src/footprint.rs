//! What the transport writes, and where: the Bluetooth core's own pointers and
//! the incoming ring are never written.

use vstd::prelude::*;

use crate::action::{answered, byte_of, logged, word_of, words_of, ActionView, Reply};
use crate::consts::{
    BTSDIO_FWBUF_SIZE, BTSDIO_OFFSET_BT2HOST_IN, BTSDIO_OFFSET_BT2HOST_OUT,
    BTSDIO_OFFSET_HOST2BT_IN, BTSDIO_OFFSET_HOST_WRITE_BUF, BT_HCI_MTU, HOST_CTRL_REG_ADDR,
    MAX_RAM_BASE,
};
use crate::diff::{diff_of, Diff};
use crate::host_ctrl::{
    signal_change, update_begin, update_next, update_write, HostCtrl, HostCtrlUpdate, UpdateStage,
};
use crate::options::Options;
use crate::packet::BtPacketBuf;
use crate::pointer::{pointer_reports, pointer_value, pointer_words, PointerWrite};
use crate::probe::{chunk_len, chunk_reads, ProbedByte};
use crate::ring::{header_len, joined, padded_len, ring_moved, ring_reads};
use crate::rx::{
    checked, finish, framed, int_status_addr, pointed, probe_o4, probe_o9, published, received,
    reread, rx_base, rx_next, sample, sampled, search, searched, signalling, submit, RxPacketView,
    RxStageView, RxStep, RxView,
};
use crate::sentinel::SentinelHit;
use crate::tx::{
    body_len, frame_writes, offer, packet_header, packet_payload, publish, send, stage_wf, taken,
    transmit, tx_asks, tx_begin, tx_next, tx_wf, wake_up, TxStage, TxState, TxStep,
};

verus! {

/// Whether an action writes nothing but what receiving packets may write: the
/// interrupt status, the host control register and the host's read pointer, which
/// it sets to `pointer`.
pub open spec fn rx_may(addr: u32, pointer: u32, action: ActionView) -> bool {
    match action {
        ActionView::Write32 { addr: at, value } => {
            ||| at == int_status_addr()
            ||| at == HOST_CTRL_REG_ADDR
            ||| at == addr + BTSDIO_OFFSET_BT2HOST_OUT && value == pointer
        },
        ActionView::WriteBlock { .. } => false,
        _ => true,
    }
}

/// Whether each of some actions is one that [`rx_may`] allows.
pub open spec fn rx_within(addr: u32, pointer: u32, acts: Seq<ActionView>) -> bool {
    forall|i: int| 0 <= i < acts.len() ==> rx_may(addr, pointer, #[trigger] acts[i])
}

/// Whether a step writes only what it may, and publishes no read pointer but the
/// one that it leaves behind.
pub open spec fn rx_step_within(addr: u32, step: RxStep) -> bool {
    rx_within(addr, step.rx.pointer, step.acts)
}

proof fn lemma_within_after(addr: u32, step: RxStep, acts: Seq<ActionView>)
    requires
        rx_within(addr, step.rx.pointer, acts),
        rx_step_within(addr, step),
    ensures
        rx_step_within(addr, step.after(acts)),
{
}

proof fn lemma_update_within(
    addr: u32,
    pointer: u32,
    opts: Options,
    ctrl: HostCtrl,
    update: HostCtrlUpdate,
    words: Seq<u32>,
)
    ensures
        rx_within(addr, pointer, update_write(opts, ctrl, update.change).acts),
        rx_within(addr, pointer, update_begin(opts, ctrl, update.change).acts),
        rx_within(addr, pointer, update_next(opts, ctrl, update, words).acts),
{
}

proof fn lemma_chunks_within(addr: u32, pointer: u32, base: u32, p: u32, n: int)
    ensures
        rx_within(addr, pointer, chunk_reads(base, p, n)),
    decreases n,
{
    if n > 0 && p < BTSDIO_FWBUF_SIZE {
        let k = chunk_len(p, n);
        lemma_chunks_within(addr, pointer, base, ring_moved(p, k), n - k);
    }
}

proof fn lemma_checked(
    pointer: u32,
    opts: Options,
    addr: u32,
    rx: RxView,
    ctrl: HostCtrl,
    status: u32,
)
    ensures
        rx_within(addr, pointer, checked(opts, addr, rx, ctrl, status).acts),
{
}

proof fn lemma_pointed(
    pointer: u32,
    opts: Options,
    addr: u32,
    rx: RxView,
    ctrl: HostCtrl,
    words: Seq<u32>,
)
    ensures
        rx_within(addr, pointer, pointed(opts, addr, rx, ctrl, words).acts),
{
    let reports = pointer_reports(BTSDIO_OFFSET_BT2HOST_IN, words);
    let reads = ring_reads(rx_base(addr), rx.pointer, 4);
    assert(rx_within(addr, pointer, reports));
    assert(rx_within(addr, pointer, reads));
    assert(rx_within(addr, pointer, reports + reads));
}

proof fn lemma_framed(
    pointer: u32,
    addr: u32,
    rx: RxView,
    ctrl: HostCtrl,
    available: u32,
    header: Seq<u8>,
)
    ensures
        rx_within(addr, pointer, framed(addr, rx, ctrl, available, header).acts),
{
    let reads = ring_reads(rx_base(addr), ring_moved(rx.pointer, 4), padded_len(header_len(header)));
    assert(rx_within(addr, pointer, reads));
    assert(rx_within(addr, pointer, seq![ActionView::ReserveRx] + reads));
}

proof fn lemma_submit(
    pointer: u32,
    opts: Options,
    addr: u32,
    rx: RxView,
    ctrl: HostCtrl,
    packet: RxPacketView,
)
    ensures
        rx_within(addr, pointer, submit(opts, addr, rx, ctrl, packet).acts),
{
    let change = signal_change(opts);
    let update = HostCtrlUpdate { change, stage: UpdateStage::Done };
    lemma_update_within(addr, pointer, opts, ctrl, update, seq![]);
}

proof fn lemma_published(
    pointer: u32,
    opts: Options,
    addr: u32,
    rx: RxView,
    ctrl: HostCtrl,
    packet: RxPacketView,
    write: PointerWrite,
    got: u32,
)
    ensures
        rx_within(addr, pointer, published(opts, addr, rx, ctrl, packet, write, got).acts),
{
    lemma_submit(pointer, opts, addr, rx, ctrl, packet);
    assert(rx_within(addr, pointer, write.next_acts(opts, got)));
}

proof fn lemma_signalling(
    pointer: u32,
    opts: Options,
    addr: u32,
    rx: RxView,
    ctrl: HostCtrl,
    update: HostCtrlUpdate,
    words: Seq<u32>,
)
    ensures
        rx_within(addr, pointer, signalling(opts, addr, rx, ctrl, update, words).acts),
{
    lemma_update_within(addr, pointer, opts, ctrl, update, words);
}

proof fn lemma_finish_within(
    opts: Options,
    addr: u32,
    rx: RxView,
    ctrl: HostCtrl,
    packet: RxPacketView,
)
    requires
        addr <= MAX_RAM_BASE,
    ensures
        rx_step_within(addr, submit(opts, addr, rx, ctrl, packet)),
        rx_step_within(addr, finish(opts, addr, rx, ctrl, packet)),
        rx_step_within(addr, sampled(opts, addr, rx, ctrl, packet)),
        rx_step_within(addr, probe_o9(opts, addr, rx, ctrl, packet)),
        rx_step_within(addr, probe_o4(opts, addr, rx, ctrl, packet)),
{
    let pointer = ring_moved(rx.pointer, packet.payload.len() as int);
    lemma_submit(rx.pointer, opts, addr, rx, ctrl, packet);
    lemma_submit(pointer, opts, addr, RxView { pointer, ..rx }, ctrl, packet);
    assert(rx_step_within(addr, finish(opts, addr, rx, ctrl, packet)));
    assert(rx_step_within(addr, sampled(opts, addr, rx, ctrl, packet)));
}

proof fn lemma_sample_within(
    opts: Options,
    addr: u32,
    rx: RxView,
    ctrl: HostCtrl,
    packet: RxPacketView,
)
    requires
        addr <= MAX_RAM_BASE,
    ensures
        rx_step_within(addr, sample(opts, addr, rx, ctrl, packet)),
{
    let counted = RxView { bytes: rx.bytes.counted(), ..rx };
    lemma_finish_within(opts, addr, rx, ctrl, packet);
    lemma_finish_within(opts, addr, counted, ctrl, packet);
}

proof fn lemma_searched_within(
    opts: Options,
    addr: u32,
    rx: RxView,
    ctrl: HostCtrl,
    packet: RxPacketView,
)
    requires
        addr <= MAX_RAM_BASE,
    ensures
        rx_step_within(addr, searched(opts, addr, rx, ctrl, packet)),
{
    lemma_sample_within(opts, addr, rx, ctrl, packet);
    lemma_within_after(
        addr,
        sample(opts, addr, rx, ctrl, packet),
        logged(rx.sentinel.summary()),
    );
}

proof fn lemma_search_within(
    opts: Options,
    addr: u32,
    rx: RxView,
    ctrl: HostCtrl,
    packet: RxPacketView,
)
    requires
        addr <= MAX_RAM_BASE,
    ensures
        rx_step_within(addr, search(opts, addr, rx, ctrl, packet)),
{
    let kept = RxView {
        sentinel: rx.sentinel.observed(packet.kind, packet.valid(), packet.start),
        ..rx
    };
    lemma_sample_within(opts, addr, rx, ctrl, packet);
    lemma_searched_within(opts, addr, kept, ctrl, packet);
}

proof fn lemma_reread_within(
    opts: Options,
    addr: u32,
    rx: RxView,
    ctrl: HostCtrl,
    packet: RxPacketView,
)
    requires
        addr <= MAX_RAM_BASE,
    ensures
        rx_step_within(addr, reread(opts, addr, rx, ctrl, packet)),
{
    lemma_search_within(opts, addr, rx, ctrl, packet);
    lemma_within_after(
        addr,
        search(opts, addr, rx, ctrl, packet),
        logged(rx.readback.summary()),
    );
}

proof fn lemma_received_within(
    opts: Options,
    addr: u32,
    rx: RxView,
    ctrl: HostCtrl,
    packet: RxPacketView,
)
    requires
        addr <= MAX_RAM_BASE,
    ensures
        rx_step_within(addr, received(opts, addr, rx, ctrl, packet)),
{
    let counted = RxView { readback: rx.readback.counted(), ..rx };
    lemma_search_within(opts, addr, rx, ctrl, packet);
    lemma_reread_within(opts, addr, counted, ctrl, packet);
    lemma_chunks_within(addr, rx.pointer, rx_base(addr), packet.start, packet.payload.len() as int);
}

/// Whether a step of receiving packets writes only what it may.
#[verifier::opaque]
spec fn rx_next_within(
    opts: Options,
    addr: u32,
    rx: RxView,
    ctrl: HostCtrl,
    stage: RxStageView,
    replies: Seq<Reply>,
) -> bool {
    rx_step_within(addr, rx_next(opts, addr, rx, ctrl, stage, replies))
}

proof fn lemma_probed_within(
    opts: Options,
    addr: u32,
    rx: RxView,
    ctrl: HostCtrl,
    packet: RxPacketView,
    byte: ProbedByte,
    replies: Seq<Reply>,
)
    requires
        addr <= MAX_RAM_BASE,
    ensures
        rx_next_within(opts, addr, rx, ctrl, RxStageView::Probing { packet, byte }, replies),
{
    reveal(rx_next_within);
    let differs = packet.payload[byte.at() as int] != byte_of(replies[0]);
    let kept = RxView { bytes: rx.bytes.checked(byte, differs), ..rx };
    lemma_finish_within(opts, addr, kept, ctrl, packet);
}

proof fn lemma_published_within(
    opts: Options,
    addr: u32,
    rx: RxView,
    ctrl: HostCtrl,
    packet: RxPacketView,
    write: PointerWrite,
    replies: Seq<Reply>,
)
    requires
        addr <= MAX_RAM_BASE,
    ensures
        rx_next_within(opts, addr, rx, ctrl, RxStageView::Publishing { packet, write }, replies),
{
    lemma_published(rx.pointer, opts, addr, rx, ctrl, packet, write, word_of(replies[0]));
    reveal(rx_next_within);
}

proof fn lemma_payload_within(
    opts: Options,
    addr: u32,
    rx: RxView,
    ctrl: HostCtrl,
    kind: u8,
    len: u32,
    replies: Seq<Reply>,
)
    requires
        addr <= MAX_RAM_BASE,
    ensures
        rx_next_within(opts, addr, rx, ctrl, RxStageView::ReadingPayload { kind, len }, replies),
{
    reveal(rx_next_within);
    let packet = RxPacketView { kind, len, start: rx.pointer, payload: joined(replies) };
    lemma_received_within(opts, addr, rx, ctrl, packet);
}

proof fn lemma_compared_within(
    opts: Options,
    addr: u32,
    rx: RxView,
    ctrl: HostCtrl,
    packet: RxPacketView,
    replies: Seq<Reply>,
)
    requires
        addr <= MAX_RAM_BASE,
    ensures
        rx_next_within(opts, addr, rx, ctrl, RxStageView::ReadingTwice(packet), replies),
{
    reveal(rx_next_within);
    lemma_reread_within(opts, addr, rx, ctrl, packet);
}

proof fn lemma_difference_within(
    opts: Options,
    addr: u32,
    rx: RxView,
    ctrl: HostCtrl,
    packet: RxPacketView,
    diff: Diff,
    replies: Seq<Reply>,
)
    requires
        addr <= MAX_RAM_BASE,
    ensures
        rx_next_within(opts, addr, rx, ctrl, RxStageView::Differing { packet, diff }, replies),
{
    reveal(rx_next_within);
    lemma_reread_within(opts, addr, rx, ctrl, packet);
}

proof fn lemma_damage_within(
    opts: Options,
    addr: u32,
    rx: RxView,
    ctrl: HostCtrl,
    packet: RxPacketView,
    hit: SentinelHit,
    replies: Seq<Reply>,
)
    requires
        addr <= MAX_RAM_BASE,
    ensures
        rx_next_within(opts, addr, rx, ctrl, RxStageView::Damaged { packet, hit }, replies),
{
    reveal(rx_next_within);
    lemma_searched_within(opts, addr, rx, ctrl, packet);
}

proof fn lemma_signalling_within(
    opts: Options,
    addr: u32,
    rx: RxView,
    ctrl: HostCtrl,
    update: HostCtrlUpdate,
    replies: Seq<Reply>,
)
    requires
        addr <= MAX_RAM_BASE,
    ensures
        rx_next_within(opts, addr, rx, ctrl, RxStageView::Signalling(update), replies),
{
    lemma_signalling(rx.pointer, opts, addr, rx, ctrl, update, words_of(replies));
    reveal(rx_next_within);
}

proof fn lemma_checked_within(
    opts: Options,
    addr: u32,
    rx: RxView,
    ctrl: HostCtrl,
    replies: Seq<Reply>,
)
    requires
        addr <= MAX_RAM_BASE,
    ensures
        rx_next_within(opts, addr, rx, ctrl, RxStageView::Checking, replies),
{
    lemma_checked(rx.pointer, opts, addr, rx, ctrl, word_of(replies[0]));
    reveal(rx_next_within);
}

proof fn lemma_pointed_within(
    opts: Options,
    addr: u32,
    rx: RxView,
    ctrl: HostCtrl,
    replies: Seq<Reply>,
)
    requires
        addr <= MAX_RAM_BASE,
    ensures
        rx_next_within(opts, addr, rx, ctrl, RxStageView::Polling, replies),
{
    lemma_pointed(rx.pointer, opts, addr, rx, ctrl, pointer_words(opts, replies, 0));
    reveal(rx_next_within);
}

proof fn lemma_framed_within(
    opts: Options,
    addr: u32,
    rx: RxView,
    ctrl: HostCtrl,
    available: u32,
    replies: Seq<Reply>,
)
    requires
        addr <= MAX_RAM_BASE,
    ensures
        rx_next_within(opts, addr, rx, ctrl, RxStageView::ReadingHeader { available }, replies),
{
    let header = joined(replies);
    lemma_framed(rx.pointer, addr, rx, ctrl, available, header);
    lemma_framed(ring_moved(rx.pointer, 4), addr, rx, ctrl, available, header);
    reveal(rx_next_within);
}

proof fn lemma_stopped_within(
    opts: Options,
    addr: u32,
    rx: RxView,
    ctrl: HostCtrl,
    stage: RxStageView,
    replies: Seq<Reply>,
)
    requires
        addr <= MAX_RAM_BASE,
        stage is Done || stage is Failed,
    ensures
        rx_next_within(opts, addr, rx, ctrl, stage, replies),
{
    reveal(rx_next_within);
}

/// Receiving packets writes nothing but the interrupt status, the host control
/// register and the host's read pointer; and the read pointer that a step
/// publishes is the one that it leaves behind.
pub proof fn law_receiving_writes(
    opts: Options,
    addr: u32,
    rx: RxView,
    ctrl: HostCtrl,
    stage: RxStageView,
    replies: Seq<Reply>,
)
    requires
        addr <= MAX_RAM_BASE,
    ensures
        rx_step_within(addr, rx_next(opts, addr, rx, ctrl, stage, replies)),
{
    lemma_stages_within(opts, addr, rx, ctrl, stage, replies);
    reveal(rx_next_within);
}

proof fn lemma_stages_within(
    opts: Options,
    addr: u32,
    rx: RxView,
    ctrl: HostCtrl,
    stage: RxStageView,
    replies: Seq<Reply>,
)
    requires
        addr <= MAX_RAM_BASE,
    ensures
        rx_next_within(opts, addr, rx, ctrl, stage, replies),
{
    match stage {
        RxStageView::ReadingPayload { kind, len } => {
            lemma_payload_within(opts, addr, rx, ctrl, kind, len, replies);
        },
        RxStageView::ReadingTwice(packet) => {
            lemma_compared_within(opts, addr, rx, ctrl, packet, replies);
        },
        RxStageView::Differing { packet, diff } => {
            lemma_difference_within(opts, addr, rx, ctrl, packet, diff, replies);
        },
        RxStageView::Damaged { packet, hit } => {
            lemma_damage_within(opts, addr, rx, ctrl, packet, hit, replies);
        },
        RxStageView::Probing { packet, byte } => {
            lemma_probed_within(opts, addr, rx, ctrl, packet, byte, replies);
        },
        RxStageView::Publishing { packet, write } => {
            lemma_published_within(opts, addr, rx, ctrl, packet, write, replies);
        },
        RxStageView::Signalling(update) => {
            lemma_signalling_within(opts, addr, rx, ctrl, update, replies);
        },
        RxStageView::Checking => {
            lemma_checked_within(opts, addr, rx, ctrl, replies);
        },
        RxStageView::Polling => {
            lemma_pointed_within(opts, addr, rx, ctrl, replies);
        },
        RxStageView::ReadingHeader { available } => {
            lemma_framed_within(opts, addr, rx, ctrl, available, replies);
        },
        _ => {
            lemma_stopped_within(opts, addr, rx, ctrl, stage, replies);
        },
    }
}

/// Whether a packet is in hand, or arrives with the replies.
pub open spec fn in_hand(stage: RxStageView) -> bool {
    stage is ReadingPayload || stage is ReadingTwice || stage is Differing || stage is Damaged
        || stage is Probing
}

/// Whether no action publishes a read pointer.
pub open spec fn publishes_nothing(addr: u32, acts: Seq<ActionView>) -> bool {
    forall|i: int|
        0 <= i < acts.len() ==> !(#[trigger] acts[i] is Write32 && acts[i]->Write32_addr == addr
            + BTSDIO_OFFSET_BT2HOST_OUT)
}

/// Whether the interrupt status and the host control register are not where the
/// host's read pointer is.
pub open spec fn registers_apart(addr: u32) -> bool {
    &&& addr + BTSDIO_OFFSET_BT2HOST_OUT != int_status_addr()
    &&& addr + BTSDIO_OFFSET_BT2HOST_OUT != HOST_CTRL_REG_ADDR
}

/// Actions that may publish one pointer and may publish another publish none.
proof fn lemma_publishes_nothing(addr: u32, acts: Seq<ActionView>)
    requires
        registers_apart(addr),
        rx_within(addr, 0, acts),
        rx_within(addr, 4, acts),
    ensures
        publishes_nothing(addr, acts),
{
    assert forall|i: int| 0 <= i < acts.len() implies !(#[trigger] acts[i] is Write32
        && acts[i]->Write32_addr == addr + BTSDIO_OFFSET_BT2HOST_OUT) by {
        assert(rx_may(addr, 0, acts[i]));
        assert(rx_may(addr, 4, acts[i]));
    }
}

/// Whether a step of receiving packets may publish `pointer` and nothing else.
#[verifier::opaque]
spec fn rx_next_may(
    pointer: u32,
    opts: Options,
    addr: u32,
    rx: RxView,
    ctrl: HostCtrl,
    stage: RxStageView,
    replies: Seq<Reply>,
) -> bool {
    rx_within(addr, pointer, rx_next(opts, addr, rx, ctrl, stage, replies).acts)
}

proof fn lemma_checked_may(
    pointer: u32,
    opts: Options,
    addr: u32,
    rx: RxView,
    ctrl: HostCtrl,
    replies: Seq<Reply>,
)
    ensures
        rx_next_may(pointer, opts, addr, rx, ctrl, RxStageView::Checking, replies),
{
    lemma_checked(pointer, opts, addr, rx, ctrl, word_of(replies[0]));
    reveal(rx_next_may);
}

proof fn lemma_pointed_may(
    pointer: u32,
    opts: Options,
    addr: u32,
    rx: RxView,
    ctrl: HostCtrl,
    replies: Seq<Reply>,
)
    ensures
        rx_next_may(pointer, opts, addr, rx, ctrl, RxStageView::Polling, replies),
{
    lemma_pointed(pointer, opts, addr, rx, ctrl, pointer_words(opts, replies, 0));
    reveal(rx_next_may);
}

proof fn lemma_framed_may(
    pointer: u32,
    opts: Options,
    addr: u32,
    rx: RxView,
    ctrl: HostCtrl,
    available: u32,
    replies: Seq<Reply>,
)
    ensures
        rx_next_may(pointer, opts, addr, rx, ctrl, RxStageView::ReadingHeader { available }, replies),
{
    lemma_framed(pointer, addr, rx, ctrl, available, joined(replies));
    reveal(rx_next_may);
}

proof fn lemma_published_may(
    pointer: u32,
    opts: Options,
    addr: u32,
    rx: RxView,
    ctrl: HostCtrl,
    packet: RxPacketView,
    write: PointerWrite,
    replies: Seq<Reply>,
)
    ensures
        rx_next_may(pointer, opts, addr, rx, ctrl, RxStageView::Publishing { packet, write }, replies),
{
    lemma_published(pointer, opts, addr, rx, ctrl, packet, write, word_of(replies[0]));
    reveal(rx_next_may);
}

proof fn lemma_signalling_may(
    pointer: u32,
    opts: Options,
    addr: u32,
    rx: RxView,
    ctrl: HostCtrl,
    update: HostCtrlUpdate,
    replies: Seq<Reply>,
)
    ensures
        rx_next_may(pointer, opts, addr, rx, ctrl, RxStageView::Signalling(update), replies),
{
    lemma_signalling(pointer, opts, addr, rx, ctrl, update, words_of(replies));
    reveal(rx_next_may);
}

proof fn lemma_stopped_may(
    pointer: u32,
    opts: Options,
    addr: u32,
    rx: RxView,
    ctrl: HostCtrl,
    stage: RxStageView,
    replies: Seq<Reply>,
)
    requires
        stage is Done || stage is Failed,
    ensures
        rx_next_may(pointer, opts, addr, rx, ctrl, stage, replies),
{
    reveal(rx_next_may);
}

proof fn lemma_stages_may(
    pointer: u32,
    opts: Options,
    addr: u32,
    rx: RxView,
    ctrl: HostCtrl,
    stage: RxStageView,
    replies: Seq<Reply>,
)
    requires
        !in_hand(stage),
    ensures
        rx_next_may(pointer, opts, addr, rx, ctrl, stage, replies),
{
    match stage {
        RxStageView::Checking => {
            lemma_checked_may(pointer, opts, addr, rx, ctrl, replies);
        },
        RxStageView::Polling => {
            lemma_pointed_may(pointer, opts, addr, rx, ctrl, replies);
        },
        RxStageView::ReadingHeader { available } => {
            lemma_framed_may(pointer, opts, addr, rx, ctrl, available, replies);
        },
        RxStageView::Publishing { packet, write } => {
            lemma_published_may(pointer, opts, addr, rx, ctrl, packet, write, replies);
        },
        RxStageView::Signalling(update) => {
            lemma_signalling_may(pointer, opts, addr, rx, ctrl, update, replies);
        },
        _ => {
            lemma_stopped_may(pointer, opts, addr, rx, ctrl, stage, replies);
        },
    }
}

/// The host gives the room of a packet back only when it has all of the packet:
/// no other step publishes a read pointer.
pub proof fn law_acknowledged_in_hand(
    opts: Options,
    addr: u32,
    rx: RxView,
    ctrl: HostCtrl,
    stage: RxStageView,
    replies: Seq<Reply>,
)
    requires
        registers_apart(addr),
        !in_hand(stage),
    ensures
        publishes_nothing(addr, rx_next(opts, addr, rx, ctrl, stage, replies).acts),
{
    lemma_stages_may(0, opts, addr, rx, ctrl, stage, replies);
    lemma_stages_may(4, opts, addr, rx, ctrl, stage, replies);
    reveal(rx_next_may);
    lemma_publishes_nothing(addr, rx_next(opts, addr, rx, ctrl, stage, replies).acts);
}

/// Whether an action writes nothing but what sending packets may write: the
/// outgoing ring, the host control register and the host's write pointer, which
/// it sets to `pointer`.
pub open spec fn tx_may(addr: u32, pointer: u32, action: ActionView) -> bool {
    let base = addr + BTSDIO_OFFSET_HOST_WRITE_BUF;
    match action {
        ActionView::Write32 { addr: at, value } => {
            ||| at == HOST_CTRL_REG_ADDR
            ||| at == addr + BTSDIO_OFFSET_HOST2BT_IN && value == pointer
        },
        ActionView::WriteBlock { addr: at, data } => {
            base <= at && at + data.len() <= base + BTSDIO_FWBUF_SIZE
        },
        _ => true,
    }
}

/// Whether each of some actions is one that [`tx_may`] allows.
pub open spec fn tx_within(addr: u32, pointer: u32, acts: Seq<ActionView>) -> bool {
    forall|i: int| 0 <= i < acts.len() ==> tx_may(addr, pointer, #[trigger] acts[i])
}

/// Whether a step writes only what it may, and publishes no write pointer but the
/// one that it leaves behind.
pub open spec fn tx_step_within(addr: u32, step: TxStep) -> bool {
    tx_within(addr, step.tx.h2b_write_pointer, step.acts)
}

proof fn lemma_tx_update_within(
    addr: u32,
    pointer: u32,
    opts: Options,
    ctrl: HostCtrl,
    update: HostCtrlUpdate,
    words: Seq<u32>,
)
    ensures
        tx_within(addr, pointer, update_write(opts, ctrl, update.change).acts),
        tx_within(addr, pointer, update_begin(opts, ctrl, update.change).acts),
        tx_within(addr, pointer, update_next(opts, ctrl, update, words).acts),
{
}

proof fn lemma_publish_within(opts: Options, addr: u32, tx: TxState, ctrl: HostCtrl)
    requires
        addr <= MAX_RAM_BASE,
    ensures
        tx_step_within(addr, publish(opts, addr, tx, ctrl)),
{
}

proof fn lemma_transmit_within(
    opts: Options,
    addr: u32,
    tx: TxState,
    ctrl: HostCtrl,
    packet: BtPacketBuf,
)
    requires
        tx_wf(addr, tx),
        1 <= packet.len,
        1 + padded_len(body_len(packet)) <= BT_HCI_MTU,
    ensures
        tx_step_within(addr, transmit(opts, addr, tx, ctrl, packet)),
{
    let start = tx.h2b_write_pointer;
    let moved = TxState {
        h2b_write_pointer: ring_moved(ring_moved(start, 4), padded_len(body_len(packet))),
        ..tx
    };
    lemma_publish_within(opts, addr, moved, ctrl);
    assert(tx_within(addr, moved.h2b_write_pointer, frame_writes(addr, tx, packet)));
}

proof fn lemma_send_within(
    opts: Options,
    addr: u32,
    tx: TxState,
    ctrl: HostCtrl,
    packet: BtPacketBuf,
    words: Seq<u32>,
)
    requires
        tx_wf(addr, tx),
        1 <= packet.len,
    ensures
        tx_step_within(addr, send(opts, addr, tx, ctrl, packet, words)),
{
    if 1 + padded_len(body_len(packet)) <= BT_HCI_MTU {
        lemma_transmit_within(opts, addr, tx, ctrl, packet);
    }
    if pointer_value(opts, words) is Ok {
        let read = pointer_value(opts, words)->Ok_0;
        assert(tx_step_within(addr, offer(opts, addr, tx, ctrl, packet, read)));
    }
}

/// Sending packets writes nothing but the outgoing ring, the host control register
/// and the host's write pointer; and the write pointer that a step publishes is
/// the one that it leaves behind.
pub proof fn law_sending_writes(
    opts: Options,
    addr: u32,
    tx: TxState,
    ctrl: HostCtrl,
    stage: TxStage,
    replies: Seq<Reply>,
)
    requires
        tx_wf(addr, tx),
        stage_wf(opts, stage),
        answered(tx_asks(opts, stage), replies),
    ensures
        tx_step_within(addr, tx_begin(opts, tx, ctrl)),
        tx_step_within(addr, tx_next(opts, addr, tx, ctrl, stage, replies)),
{
    let wake = HostCtrlUpdate { change: wake_up(), stage: UpdateStage::Done };
    lemma_tx_update_within(addr, tx.h2b_write_pointer, opts, ctrl, wake, seq![]);
    match stage {
        TxStage::Waking(update) => {
            lemma_tx_update_within(addr, tx.h2b_write_pointer, opts, ctrl, update, words_of(replies));
        },
        TxStage::Fetching => {
            let step = taken(opts, addr, tx, ctrl, replies[0]->Packet_0);
            assert(tx_step_within(addr, step));
        },
        TxStage::Offering { packet, found } => {
            let words = pointer_words(opts, replies, 0);
            lemma_send_within(opts, addr, tx, ctrl, packet, words);
        },
        TxStage::ReadingBack { start, packet, diag } => {
            let diff = diff_of(packet_header(packet) + packet_payload(packet), joined(replies));
            let readback = tx.readback.counted(diff.mismatches != 0);
            lemma_publish_within(opts, addr, TxState { readback, ..tx }, ctrl);
        },
        _ => {},
    }
}

} // verus!
