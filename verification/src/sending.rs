//! Sending a packet ends: after a limited number of rounds it is done or has
//! failed, and the packet has left the queue at most once.

use vstd::prelude::*;

use crate::action::Reply;
use crate::arrival::{lemma_first_round, lemma_taken, tx_run};
use crate::host_ctrl::{HostCtrl, UpdateStage};
use crate::memory::{law_memory_kept, law_performed_in_turn, performed_all, Memory};
use crate::options::Options;
use crate::packet::BtPacketBuf;
use crate::pointer::{pointer_value, pointer_words, PointerStage};
use crate::poll::PollStage;
use crate::ring::ring_free;
use crate::tx::{
    frame_len, inspected, law_released_once, law_releases_in_turn, release_count, send, tx_begin,
    tx_next, TxStage, TxState,
};

verus! {

/// How many rounds it takes at most until there is nothing left to do.
pub open spec fn tx_rounds(stage: TxStage) -> int {
    match stage {
        TxStage::Waking(update) => match update.stage {
            UpdateStage::Reading { sample } => 311,
            UpdateStage::Written { sample } => if sample {
                310
            } else {
                309
            },
            _ => 309,
        },
        TxStage::Awaiting(poll) => match poll.stage {
            PollStage::Reading { left } => 9 + left,
            _ => 9,
        },
        TxStage::Fetching => 8,
        TxStage::Offering { packet, found } => 7,
        TxStage::ReadingBack { start, packet, diag } => 6,
        TxStage::Publishing(write) => match write.stage {
            PointerStage::Verifying { left } => 2 + left,
            _ => 2,
        },
        TxStage::Signalling => 1,
        _ => 0,
    }
}

/// Whether the part of a stage that is in progress has something left to do.
pub open spec fn tx_ready(stage: TxStage) -> bool {
    match stage {
        TxStage::Waking(update) => update.running(),
        TxStage::Awaiting(poll) => poll.stage is Reading,
        TxStage::Publishing(write) => write.stage is Verifying,
        _ => true,
    }
}

/// Whether sending a packet has ended.
pub open spec fn tx_stopped(stage: TxStage) -> bool {
    stage is Done || stage is Failed
}

proof fn lemma_nearer(
    opts: Options,
    addr: u32,
    tx: TxState,
    ctrl: HostCtrl,
    stage: TxStage,
    replies: Seq<Reply>,
)
    requires
        tx_ready(stage),
    ensures
        ({
            let step = tx_next(opts, addr, tx, ctrl, stage, replies);
            &&& tx_ready(step.stage)
            &&& tx_stopped(stage) ==> step.stage == stage
            &&& !tx_stopped(stage) ==> tx_rounds(step.stage) < tx_rounds(stage)
            &&& stage is Signalling ==> step.stage is Done
        }),
{
}

/// Whatever the replies, sending a packet ends after a limited number of rounds.
/// The packet leaves the queue at most once, and not before the end.
pub proof fn law_sending_ends(
    opts: Options,
    addr: u32,
    tx: TxState,
    ctrl: HostCtrl,
    stage: TxStage,
    rounds: Seq<Seq<Reply>>,
)
    requires
        tx_ready(stage),
    ensures
        ({
            let run = tx_run(opts, addr, tx, ctrl, stage, rounds);
            &&& tx_ready(run.stage)
            &&& rounds.len() >= tx_rounds(stage) ==> tx_stopped(run.stage)
            &&& !tx_stopped(run.stage) ==> rounds.len() + tx_rounds(run.stage) <= tx_rounds(stage)
            &&& release_count(run.acts) <= 1
            &&& !(run.stage is Done) ==> release_count(run.acts) == 0
        }),
    decreases rounds.len(),
{
    if rounds.len() > 0 {
        let before = tx_run(opts, addr, tx, ctrl, stage, rounds.drop_last());
        law_sending_ends(opts, addr, tx, ctrl, stage, rounds.drop_last());
        let step = tx_next(opts, addr, before.tx, before.ctrl, before.stage, rounds.last());
        lemma_nearer(opts, addr, before.tx, before.ctrl, before.stage, rounds.last());
        law_released_once(opts, addr, before.tx, before.ctrl, before.stage, rounds.last());
        law_releases_in_turn(before.acts, step.acts);
    }
}

/// From the waking of the Bluetooth core on, sending a packet ends after no more
/// than 311 rounds.
pub proof fn law_sending_is_bounded(
    opts: Options,
    addr: u32,
    tx: TxState,
    ctrl: HostCtrl,
    rounds: Seq<Seq<Reply>>,
)
    requires
        rounds.len() >= 311,
    ensures
        ({
            let begun = tx_begin(opts, tx, ctrl);
            let run = tx_run(opts, addr, begun.tx, begun.ctrl, begun.stage, rounds);
            &&& tx_stopped(run.stage)
            &&& release_count(begun.acts + run.acts) <= 1
        }),
{
    let begun = tx_begin(opts, tx, ctrl);
    let run = tx_run(opts, addr, begun.tx, begun.ctrl, begun.stage, rounds);
    law_sending_ends(opts, addr, begun.tx, begun.ctrl, begun.stage, rounds);
    law_released_once(opts, addr, tx, ctrl, TxStage::Done, seq![]);
    law_releases_in_turn(begun.acts, run.acts);
}

proof fn lemma_refused(
    opts: Options,
    addr: u32,
    mem: Memory,
    tx: TxState,
    ctrl: HostCtrl,
    packet: BtPacketBuf,
    words: Seq<u32>,
)
    requires
        pointer_value(opts, words) is Ok,
        ring_free(pointer_value(opts, words)->Ok_0, tx.h2b_write_pointer) < frame_len(packet),
    ensures
        ({
            let step = send(opts, addr, tx, ctrl, packet, words);
            &&& step.stage is Done
            &&& step.tx == tx
            &&& performed_all(mem, step.acts) == mem
        }),
{
    law_memory_kept(mem, send(opts, addr, tx, ctrl, packet, words).acts);
}

/// A packet that is taken from the queue and finds no room in the outgoing ring
/// stays in the queue: sending it is done at once, and memory and the write pointer
/// are as before.
pub proof fn law_full_ring_keeps_packet(
    opts: Options,
    addr: u32,
    mem: Memory,
    tx: TxState,
    ctrl: HostCtrl,
    rounds: Seq<Seq<Reply>>,
)
    requires
        rounds.len() >= 2,
        ({
            let packet = rounds[0][0]->Packet_0;
            let words = pointer_words(opts, rounds[1], 0);
            &&& 1 <= packet.len
            &&& pointer_value(opts, words) is Ok
            &&& ring_free(pointer_value(opts, words)->Ok_0, tx.h2b_write_pointer) < frame_len(packet)
        }),
    ensures
        ({
            let run = tx_run(opts, addr, tx, ctrl, TxStage::Fetching, rounds);
            &&& run.stage is Done
            &&& run.tx == inspected(opts, tx, rounds[0][0]->Packet_0)
            &&& run.tx.h2b_write_pointer == tx.h2b_write_pointer
            &&& release_count(run.acts) == 0
            &&& performed_all(mem, run.acts) == mem
        }),
    decreases rounds.len(),
{
    let packet = rounds[0][0]->Packet_0;
    let words = pointer_words(opts, rounds[1], 0);
    let before = tx_run(opts, addr, tx, ctrl, TxStage::Fetching, rounds.drop_last());
    let step = tx_next(opts, addr, before.tx, before.ctrl, before.stage, rounds.last());
    law_releases_in_turn(before.acts, step.acts);
    law_released_once(opts, addr, before.tx, before.ctrl, before.stage, rounds.last());
    law_performed_in_turn(mem, before.acts, step.acts);
    if rounds.len() == 2 {
        law_released_once(opts, addr, tx, ctrl, TxStage::Fetching, rounds[0]);
        lemma_first_round(opts, addr, tx, ctrl, rounds.drop_last());
        lemma_taken(opts, addr, mem, tx, ctrl, packet);
        lemma_refused(opts, addr, mem, before.tx, before.ctrl, packet, words);
    } else {
        assert(rounds.drop_last()[0] == rounds[0]);
        assert(rounds.drop_last()[1] == rounds[1]);
        law_full_ring_keeps_packet(opts, addr, mem, tx, ctrl, rounds.drop_last());
        law_memory_kept(mem, step.acts);
    }
}

} // verus!
