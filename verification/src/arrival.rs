//! A packet that was sent is found by the Bluetooth core, whole and unchanged,
//! and announced by the write pointer.

use vstd::arithmetic::div_mod::*;
use vstd::prelude::*;

use crate::action::{logged, optional, word_of, ActionView, Reply};
use crate::consts::{
    BTSDIO_FWBUF_SIZE, BTSDIO_OFFSET_BT2HOST_OUT, BTSDIO_OFFSET_HOST2BT_IN,
    BTSDIO_OFFSET_HOST2BT_OUT, BTSDIO_OFFSET_HOST_WRITE_BUF, HOST_CTRL_REG_ADDR,
};
use crate::delivery::packets_in_ring;
use crate::diff::diff_of;
use crate::host_ctrl::{HostCtrl, HostCtrlChange};
use crate::memory::{
    law_memory_kept, law_performed_in_turn, law_word_written, performed, performed_all, stored,
    word_at, Memory,
};
use crate::options::Options;
use crate::packet::BtPacketBuf;
use crate::pointer::{pointer_reports, pointer_value, pointer_words};
use crate::ring::{
    joined, law_frame_header, law_ring_load_after_store, padded_len, ring_free, ring_loaded,
    ring_moved, ring_stored,
};
use crate::tx::{
    body_len, framable, frame_len, inspection, law_released_once, law_releases_in_turn,
    law_transmit, packet_frame, packet_header, packet_payload, pointer_write, publish,
    readback_report, release_count, send, taken, transmit, tx_next, tx_wf, TxStage, TxState, TxStep,
    BT_RING_TX_PUBLISH_DELAY_US,
};
use crate::util::u32_bytes;

verus! {

/// Whether the host control register lies outside the shared buffers and the ring
/// pointers.
pub open spec fn register_outside(addr: u32) -> bool {
    HOST_CTRL_REG_ADDR + 4 <= addr || addr + BTSDIO_OFFSET_BT2HOST_OUT + 4 <= HOST_CTRL_REG_ADDR
}

/// Whether a packet stands in the outgoing ring from `start` on.
pub open spec fn stands(addr: u32, mem: Memory, start: u32, packet: BtPacketBuf) -> bool {
    ring_loaded(
        mem,
        addr + BTSDIO_OFFSET_HOST_WRITE_BUF,
        start as int,
        frame_len(packet) as nat,
    ) == packet_frame(packet)
}

/// Whether a packet stands in the ring, the write pointer is behind it, and unless
/// the packet is still being read back, the Bluetooth core can see that pointer.
pub open spec fn under_way(
    addr: u32,
    mem: Memory,
    start: u32,
    packet: BtPacketBuf,
    tx: TxState,
    stage: TxStage,
) -> bool {
    &&& stands(addr, mem, start, packet)
    &&& tx.h2b_write_pointer == ring_moved(start, frame_len(packet))
    &&& !(stage is ReadingBack) ==> word_at(mem, addr + BTSDIO_OFFSET_HOST2BT_IN)
        == tx.h2b_write_pointer
}

/// Whether a stage is one that follows the writing of a packet.
pub open spec fn written(stage: TxStage) -> bool {
    ||| stage is ReadingBack
    ||| stage matches TxStage::Publishing(write) && write.stage is Verifying
    ||| stage is Signalling
    ||| stage is Done
}

/// A change outside the ring leaves a packet in it as it is.
proof fn lemma_stands(
    addr: u32,
    mem: Memory,
    start: u32,
    packet: BtPacketBuf,
    at: int,
    data: Seq<u8>,
)
    requires
        stands(addr, mem, start, packet),
        at + data.len() <= addr || addr + BTSDIO_FWBUF_SIZE <= at,
    ensures
        stands(addr, stored(mem, at, data), start, packet),
{
    let base = addr + BTSDIO_OFFSET_HOST_WRITE_BUF;
    let n = frame_len(packet) as nat;
    let before = ring_loaded(mem, base, start as int, n);
    let after = ring_loaded(stored(mem, at, data), base, start as int, n);
    assert forall|i: int| 0 <= i < n implies after[i] == before[i] by {
        lemma_mod_bound(start + i, BTSDIO_FWBUF_SIZE as int);
    }
    assert(after =~= before);
}

/// What publishing the write pointer does to memory.
proof fn lemma_publish(opts: Options, addr: u32, mem: Memory, tx: TxState, ctrl: HostCtrl)
    requires
        tx_wf(addr, tx),
    ensures
        performed_all(mem, publish(opts, addr, tx, ctrl).acts) == stored(
            mem,
            addr + BTSDIO_OFFSET_HOST2BT_IN,
            u32_bytes(tx.h2b_write_pointer),
        ),
{
    let write = pointer_write(opts, addr, tx);
    let acts = publish(opts, addr, tx, ctrl).acts;
    let before = optional(
        opts.tx_publish_delay,
        ActionView::Delay { micros: BT_RING_TX_PUBLISH_DELAY_US },
    );
    let after = acts.skip(before.len() as int + 1);
    assert(acts =~= before + (seq![write.write()] + after));
    law_performed_in_turn(mem, before, seq![write.write()] + after);
    law_memory_kept(mem, before);
    law_performed_in_turn(mem, seq![write.write()], after);
    assert(seq![write.write()].drop_last() =~= seq![]);
    reveal_with_fuel(performed_all, 2);
    law_memory_kept(performed(mem, write.write()), after);
}

/// A step that follows the writing of a packet keeps it under way.
proof fn lemma_stays_under_way(
    opts: Options,
    addr: u32,
    mem: Memory,
    start: u32,
    packet: BtPacketBuf,
    tx: TxState,
    ctrl: HostCtrl,
    stage: TxStage,
    replies: Seq<Reply>,
)
    requires
        tx_wf(addr, tx),
        register_outside(addr),
        written(stage),
        under_way(addr, mem, start, packet, tx, stage),
    ensures
        ({
            let step = tx_next(opts, addr, tx, ctrl, stage, replies);
            &&& !opts.strict_checks ==> !(step.stage is Failed)
            &&& step.stage is Failed || {
                &&& step.stage is Done <==> stage is Signalling || stage is Done
                &&& written(step.stage)
                &&& tx_wf(addr, step.tx)
                &&& under_way(
                    addr,
                    performed_all(mem, step.acts),
                    start,
                    packet,
                    step.tx,
                    step.stage,
                )
            }
        }),
{
    let step = tx_next(opts, addr, tx, ctrl, stage, replies);
    let pointer_at = addr + BTSDIO_OFFSET_HOST2BT_IN;
    match stage {
        TxStage::ReadingBack { start: s, packet: p, diag } => {
            let diff = diff_of(packet_header(p) + packet_payload(p), joined(replies));
            let readback = tx.readback.counted(diff.mismatches != 0);
            let kept = TxState { readback, ..tx };
            let logs = logged(readback_report(readback, diag.seq, diff));
            lemma_publish(opts, addr, mem, kept, ctrl);
            law_performed_in_turn(mem, logs, publish(opts, addr, kept, ctrl).acts);
            law_memory_kept(mem, logs);
            lemma_stands(addr, mem, start, packet, pointer_at, u32_bytes(tx.h2b_write_pointer));
            law_word_written(mem, pointer_at as u32, tx.h2b_write_pointer);
        },
        TxStage::Publishing(write) => {
            law_memory_kept(mem, step.acts);
        },
        TxStage::Signalling => {
            let value = HostCtrlChange::ToggleIntr.applied(word_of(replies[0]));
            let first = seq![ActionView::Write32 { addr: HOST_CTRL_REG_ADDR, value }];
            assert(step.acts =~= first + seq![ActionView::ReleaseTx]);
            law_performed_in_turn(mem, first, seq![ActionView::ReleaseTx]);
            assert(first.drop_last() =~= seq![]);
            reveal_with_fuel(performed_all, 2);
            let after = stored(mem, HOST_CTRL_REG_ADDR as int, u32_bytes(value));
            assert(performed_all(mem, first) == after);
            law_memory_kept(after, seq![ActionView::ReleaseTx]);
            lemma_stands(addr, mem, start, packet, HOST_CTRL_REG_ADDR as int, u32_bytes(value));
            assert(word_at(after, pointer_at) == word_at(mem, pointer_at));
        },
        _ => {
            law_memory_kept(mem, step.acts);
        },
    }
}

/// A packet that is written is not done with yet.
proof fn lemma_transmit_goes_on(
    opts: Options,
    addr: u32,
    tx: TxState,
    ctrl: HostCtrl,
    packet: BtPacketBuf,
)
    ensures
        ({
            let step = transmit(opts, addr, tx, ctrl, packet);
            written(step.stage) && !(step.stage is Done)
        }),
{
}

/// Writing a packet puts it under way.
#[verifier::spinoff_prover]
#[verifier::rlimit(40)]
proof fn lemma_transmit(
    opts: Options,
    addr: u32,
    mem: Memory,
    tx: TxState,
    ctrl: HostCtrl,
    packet: BtPacketBuf,
)
    requires
        tx_wf(addr, tx),
        framable(packet),
    ensures
        ({
            let step = transmit(opts, addr, tx, ctrl, packet);
            &&& tx_wf(addr, step.tx)
            &&& under_way(
                addr,
                performed_all(mem, step.acts),
                tx.h2b_write_pointer,
                packet,
                step.tx,
                step.stage,
            )
        }),
{
    let base = addr + BTSDIO_OFFSET_HOST_WRITE_BUF;
    let p = tx.h2b_write_pointer;
    let frame = packet_frame(packet);
    let framed = ring_stored(mem, base, p as int, frame);
    let step = transmit(opts, addr, tx, ctrl, packet);
    let pointer = step.tx.h2b_write_pointer;
    let pointer_at = addr + BTSDIO_OFFSET_HOST2BT_IN;
    law_transmit(mem, opts, addr, tx, ctrl, packet);
    law_ring_load_after_store(mem, base, p as int, frame);
    assert(stands(addr, framed, p, packet));
    lemma_stands(addr, framed, p, packet, pointer_at, u32_bytes(pointer));
    law_word_written(framed, pointer_at as u32, pointer);
}

/// A packet that has room is put under way.
proof fn lemma_put_under_way(
    opts: Options,
    addr: u32,
    mem: Memory,
    tx: TxState,
    ctrl: HostCtrl,
    packet: BtPacketBuf,
    words: Seq<u32>,
)
    requires
        tx_wf(addr, tx),
        framable(packet),
        pointer_value(opts, words) is Ok,
        frame_len(packet) <= ring_free(pointer_value(opts, words)->Ok_0, tx.h2b_write_pointer),
    ensures
        ({
            let step = send(opts, addr, tx, ctrl, packet, words);
            &&& written(step.stage)
            &&& !(step.stage is Done)
            &&& tx_wf(addr, step.tx)
            &&& under_way(
                addr,
                performed_all(mem, step.acts),
                tx.h2b_write_pointer,
                packet,
                step.tx,
                step.stage,
            )
        }),
{
    let logs = pointer_reports(BTSDIO_OFFSET_HOST2BT_OUT, words);
    let step = transmit(opts, addr, tx, ctrl, packet);
    law_performed_in_turn(mem, logs, step.acts);
    law_memory_kept(mem, logs);
    lemma_transmit_goes_on(opts, addr, tx, ctrl, packet);
    lemma_transmit(opts, addr, mem, tx, ctrl, packet);
}

/// What stands in the ring is found there.
proof fn lemma_found(addr: u32, mem: Memory, start: u32, packet: BtPacketBuf)
    requires
        framable(packet),
        stands(addr, mem, start, packet),
    ensures
        packets_in_ring(mem, addr + BTSDIO_OFFSET_HOST_WRITE_BUF, start, frame_len(packet)) == seq![
            packet@,
        ],
{
    let size = BTSDIO_FWBUF_SIZE as int;
    let base = addr + BTSDIO_OFFSET_HOST_WRITE_BUF;
    let len = body_len(packet);
    let kind = packet.buf@[0];
    let frame = packet_frame(packet);
    let all = ring_loaded(mem, base, start as int, frame_len(packet) as nat);
    let header = ring_loaded(mem, base, start as int, 4);
    assert(header =~= packet_header(packet)) by {
        assert forall|i: int| 0 <= i < 4 implies header[i] == packet_header(packet)[i] by {
            assert(header[i] == all[i]);
            assert(all[i] == frame[i]);
        }
    }
    law_frame_header(len, kind);
    let body = ring_loaded(mem, base, ring_moved(start, 4) as int, padded_len(len) as nat);
    assert(body =~= packet_payload(packet)) by {
        assert forall|i: int| 0 <= i < body.len() implies body[i] == packet_payload(packet)[i] by {
            lemma_add_mod_noop(start + 4, i, size);
            lemma_add_mod_noop((start + 4) % size, i, size);
            lemma_mod_twice(start + 4, size);
            assert(body[i] == all[4 + i]);
            assert(all[4 + i] == frame[4 + i]);
        }
    }
    assert(packet@ =~= seq![kind] + packet_payload(packet).take(len));
    reveal_with_fuel(packets_in_ring, 2);
    assert(seq![packet@] + Seq::<Seq<u8>>::empty() =~= seq![packet@]);
}

/// Where sending a packet gets to with the replies of some rounds, and all the
/// actions asked for on the way.
pub open spec fn tx_run(
    opts: Options,
    addr: u32,
    tx: TxState,
    ctrl: HostCtrl,
    stage: TxStage,
    rounds: Seq<Seq<Reply>>,
) -> TxStep
    decreases rounds.len(),
{
    if rounds.len() == 0 {
        TxStep { tx, ctrl, stage, acts: seq![] }
    } else {
        let before = tx_run(opts, addr, tx, ctrl, stage, rounds.drop_last());
        tx_next(opts, addr, before.tx, before.ctrl, before.stage, rounds.last()).after(before.acts)
    }
}

/// A packet is inspected before the read pointer is asked for; memory and the
/// write pointer stay as they are.
pub proof fn lemma_taken(
    opts: Options,
    addr: u32,
    mem: Memory,
    tx: TxState,
    ctrl: HostCtrl,
    packet: BtPacketBuf,
)
    requires
        1 <= packet.len,
    ensures
        ({
            let step = taken(opts, addr, tx, ctrl, packet);
            &&& step.stage == (TxStage::Offering { packet, found: inspection(opts, packet) })
            &&& step.tx.h2b_write_pointer == tx.h2b_write_pointer
            &&& performed_all(mem, step.acts) == mem
        }),
{
    law_memory_kept(mem, taken(opts, addr, tx, ctrl, packet).acts);
}

/// A packet that is taken from the queue and has room in the outgoing ring gets to
/// the Bluetooth core: as soon as the write pointer moves past it, the core finds
/// exactly that packet between the old write pointer and the new one. The packet
/// is dropped from the queue once, at the very end, and nothing but a strict check
/// can keep it from getting there.
pub proof fn law_sent_packet_arrives(
    opts: Options,
    addr: u32,
    mem: Memory,
    tx: TxState,
    ctrl: HostCtrl,
    rounds: Seq<Seq<Reply>>,
)
    requires
        tx_wf(addr, tx),
        register_outside(addr),
        rounds.len() >= 2,
        ({
            let packet = rounds[0][0]->Packet_0;
            let words = pointer_words(opts, rounds[1], 0);
            &&& framable(packet)
            &&& pointer_value(opts, words) is Ok
            &&& frame_len(packet) <= ring_free(
                pointer_value(opts, words)->Ok_0,
                tx.h2b_write_pointer,
            )
        }),
    ensures
        ({
            let packet = rounds[0][0]->Packet_0;
            let run = tx_run(opts, addr, tx, ctrl, TxStage::Fetching, rounds);
            let after = performed_all(mem, run.acts);
            &&& !opts.strict_checks ==> !(run.stage is Failed)
            &&& run.stage is Failed || {
                &&& release_count(run.acts) == if run.stage is Done {
                    1nat
                } else {
                    0
                }
                &&& written(run.stage)
                &&& tx_wf(addr, run.tx)
                &&& under_way(addr, after, tx.h2b_write_pointer, packet, run.tx, run.stage)
                &&& packets_in_ring(
                    after,
                    addr + BTSDIO_OFFSET_HOST_WRITE_BUF,
                    tx.h2b_write_pointer,
                    frame_len(packet),
                ) == seq![packet@]
            }
        }),
    decreases rounds.len(),
{
    let packet = rounds[0][0]->Packet_0;
    let words = pointer_words(opts, rounds[1], 0);
    let start = tx.h2b_write_pointer;
    let run = tx_run(opts, addr, tx, ctrl, TxStage::Fetching, rounds);
    let before = tx_run(opts, addr, tx, ctrl, TxStage::Fetching, rounds.drop_last());
    let step = tx_next(opts, addr, before.tx, before.ctrl, before.stage, rounds.last());
    law_performed_in_turn(mem, before.acts, step.acts);
    law_releases_in_turn(before.acts, step.acts);
    law_released_once(opts, addr, before.tx, before.ctrl, before.stage, rounds.last());
    if rounds.len() == 2 {
        law_released_once(opts, addr, tx, ctrl, TxStage::Fetching, rounds[0]);
        lemma_first_round(opts, addr, tx, ctrl, rounds.drop_last());
        lemma_taken(opts, addr, mem, tx, ctrl, packet);
        lemma_put_under_way(opts, addr, mem, before.tx, ctrl, packet, words);
    } else {
        assert(rounds.drop_last()[0] == rounds[0]);
        assert(rounds.drop_last()[1] == rounds[1]);
        law_sent_packet_arrives(opts, addr, mem, tx, ctrl, rounds.drop_last());
        if !(before.stage is Failed) {
            lemma_stays_under_way(
                opts,
                addr,
                performed_all(mem, before.acts),
                start,
                packet,
                before.tx,
                before.ctrl,
                before.stage,
                rounds.last(),
            );
        }
    }
    if !(run.stage is Failed) {
        lemma_found(addr, performed_all(mem, run.acts), start, packet);
    }
}

/// The first round takes the packet.
pub proof fn lemma_first_round(
    opts: Options,
    addr: u32,
    tx: TxState,
    ctrl: HostCtrl,
    rounds: Seq<Seq<Reply>>,
)
    requires
        rounds.len() == 1,
    ensures
        tx_run(opts, addr, tx, ctrl, TxStage::Fetching, rounds) == taken(
            opts,
            addr,
            tx,
            ctrl,
            rounds[0][0]->Packet_0,
        ),
{
    let step = taken(opts, addr, tx, ctrl, rounds[0][0]->Packet_0);
    reveal_with_fuel(tx_run, 2);
    assert(Seq::<ActionView>::empty() + step.acts =~= step.acts);
}

} // verus!
