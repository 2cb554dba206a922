//! What is waited for, and how long: the Bluetooth core is asked for nothing
//! before its status register has shown the bit that the step needs.

use vstd::prelude::*;

use crate::action::{word_of, words_of, ActionView, Reply};
use crate::arrival::tx_run;
use crate::bring_up::init_run;
use crate::firmware::LineState;
use crate::host_ctrl::{
    update_begin, update_next, HostCtrl, HostCtrlChange, HostCtrlUpdate, UpdateStage, UpdateStep,
};
use crate::init::{init_begin, init_next, uploaded, InitStageView};
use crate::options::Options;
use crate::poll::{Poll, PollStage};
use crate::report::Fault;
use crate::tx::{tx_begin, tx_next, TxStage, TxState};
use crate::upload::{first_record, first_state, next_record, UploadStage, UploadView};

verus! {

/// Whether no status word has the bit.
pub open spec fn all_lack(words: Seq<u32>, bit: u32) -> bool {
    forall|i: int| 0 <= i < words.len() ==> #[trigger] words[i] & bit == 0
}

/// Whether the last of at most 300 status words has the bit, and no other.
pub open spec fn seen_at_last(words: Seq<u32>, bit: u32) -> bool {
    &&& 1 <= words.len() <= 300
    &&& words.last() & bit != 0
    &&& all_lack(words.drop_last(), bit)
}

/// Whether a word was asked for.
pub open spec fn asked(acts: Seq<ActionView>, at: u32) -> bool {
    acts.contains(ActionView::Read32 { addr: at })
}

proof fn lemma_contains(a: Seq<ActionView>, b: Seq<ActionView>, act: ActionView)
    ensures
        (a + b).contains(act) <==> a.contains(act) || b.contains(act),
{
    if a.contains(act) {
        let i = choose|i: int| 0 <= i < a.len() && a[i] == act;
        assert((a + b)[i] == act);
    }
    if b.contains(act) {
        let i = choose|i: int| 0 <= i < b.len() && b[i] == act;
        assert((a + b)[a.len() + i] == act);
    }
}

proof fn lemma_one_more(words: Seq<u32>, word: u32, bit: u32)
    ensures
        all_lack(words, bit) && word & bit == 0 ==> all_lack(words.push(word), bit),
        all_lack(words, bit) && word & bit != 0 && words.len() < 300 ==> seen_at_last(
            words.push(word),
            bit,
        ),
{
    assert(words.push(word).drop_last() =~= words);
}

/// The status words that were read for the firmware to be ready.
pub open spec fn ready_words(
    opts: Options,
    addr: u32,
    ctrl: HostCtrl,
    stage: InitStageView,
    rounds: Seq<Seq<Reply>>,
) -> Seq<u32>
    decreases rounds.len(),
{
    if rounds.len() == 0 {
        seq![]
    } else {
        let before = init_run(opts, addr, ctrl, stage, rounds.drop_last());
        let words = ready_words(opts, addr, ctrl, stage, rounds.drop_last());
        if before.stage is AwaitingReady {
            words.push(words_of(rounds.last())[0])
        } else {
            words
        }
    }
}

/// The status words that were read for the Bluetooth core to be awake, once the
/// ring pointers were reset.
pub open spec fn awake_words(
    opts: Options,
    addr: u32,
    ctrl: HostCtrl,
    stage: InitStageView,
    rounds: Seq<Seq<Reply>>,
) -> Seq<u32>
    decreases rounds.len(),
{
    if rounds.len() == 0 {
        seq![]
    } else {
        let before = init_run(opts, addr, ctrl, stage, rounds.drop_last());
        let words = awake_words(opts, addr, ctrl, stage, rounds.drop_last());
        if before.stage is AwaitingAwake {
            words.push(words_of(rounds.last())[0])
        } else {
            words
        }
    }
}

/// Whether all four ring pointers were reset.
pub open spec fn pointers_reset(acts: Seq<ActionView>, addr: u32) -> bool {
    &&& 0 < addr <= 0xffff_dff3
    &&& acts.contains(ActionView::Write32 { addr: (addr + 0x2000) as u32, value: 0 })
    &&& acts.contains(ActionView::Write32 { addr: (addr + 0x2004) as u32, value: 0 })
    &&& acts.contains(ActionView::Write32 { addr: (addr + 0x2008) as u32, value: 0 })
    &&& acts.contains(ActionView::Write32 { addr: (addr + 0x200c) as u32, value: 0 })
}

/// Whether a wait for a bit goes on after these status words.
spec fn waits(poll: Poll, words: Seq<u32>, bit: u32) -> bool {
    &&& poll.mask == bit
    &&& words.len() < 300
    &&& all_lack(words, bit)
    &&& poll.stage == (PollStage::Reading { left: (299 - words.len()) as u32 })
}

/// What a wait has come to by the time of a failure.
spec fn ended(words: Seq<u32>, bit: u32, passed: bool, fault: Fault) -> bool {
    if passed {
        seen_at_last(words, bit)
    } else {
        &&& words.len() <= 300
        &&& all_lack(words, bit)
        &&& words.len() == 300 ==> fault == Fault::PollTimeout
    }
}

/// How the waits and what was asked for go together while the Bluetooth core is
/// brought up.
spec fn init_waits(
    stage: InitStageView,
    addr: u32,
    acts: Seq<ActionView>,
    ready: Seq<u32>,
    awake: Seq<u32>,
) -> bool {
    let base_asked = asked(acts, 0x1800_0d68);
    let register_asked = asked(acts, 0x1800_0d6c);
    match stage {
        InitStageView::Uploading(upload) => {
            ready.len() == 0 && awake.len() == 0 && !base_asked && !register_asked
        },
        InitStageView::AwaitingReady(poll) => {
            &&& waits(poll, ready, 0x0100_0000)
            &&& awake.len() == 0 && !base_asked && !register_asked
        },
        InitStageView::FindingBuffers => {
            &&& seen_at_last(ready, 0x0100_0000)
            &&& awake.len() == 0 && base_asked && !register_asked
        },
        InitStageView::AwaitingAwake(poll) => {
            &&& seen_at_last(ready, 0x0100_0000) && base_asked
            &&& waits(poll, awake, 0x100) && !register_asked
            &&& pointers_reset(acts, addr)
        },
        InitStageView::Failed(fault) => {
            &&& ended(ready, 0x0100_0000, base_asked, fault)
            &&& ended(awake, 0x100, register_asked, fault)
            &&& awake.len() > 0 ==> base_asked && pointers_reset(acts, addr)
        },
        _ => {
            &&& seen_at_last(ready, 0x0100_0000) && base_asked
            &&& seen_at_last(awake, 0x100) && register_asked
            &&& pointers_reset(acts, addr)
        },
    }
}

proof fn lemma_pointers_stay_reset(a: Seq<ActionView>, b: Seq<ActionView>, addr: u32)
    ensures
        pointers_reset(a, addr) ==> pointers_reset(a + b, addr),
        pointers_reset(b, addr) ==> pointers_reset(a + b, addr),
{
    let at = |offset: int| ActionView::Write32 { addr: (addr + offset) as u32, value: 0 };
    lemma_contains(a, b, at(0x2000));
    lemma_contains(a, b, at(0x2004));
    lemma_contains(a, b, at(0x2008));
    lemma_contains(a, b, at(0x200c));
}

/// The reads around a record are none of registers.
proof fn lemma_reads_asked(rest: Seq<u8>, state: LineState)
    ensures
        ({
            let reads = next_record(rest, state).1;
            forall|i: int|
                0 <= i < reads.len() ==> (#[trigger] reads[i]) is Read32
                    && reads[i]->Read32_addr >= 0x1900_0000
        }),
{
}

/// What follows an upload, on its way or at its end.
proof fn lemma_uploaded(
    addr: u32,
    ctrl: HostCtrl,
    upload: UploadView,
    acts: Seq<ActionView>,
)
    requires
        !asked(acts, 0x1800_0d68),
        !asked(acts, 0x1800_0d6c),
        !(upload.stage matches UploadStage::Failed(f) && f is PollTimeout),
    ensures
        ({
            let step = uploaded(addr, ctrl, upload);
            init_waits(step.stage, step.addr, acts + step.acts, seq![], seq![])
        }),
{
    let step = uploaded(addr, ctrl, upload);
    lemma_contains(acts, step.acts, ActionView::Read32 { addr: 0x1800_0d68 });
    lemma_contains(acts, step.acts, ActionView::Read32 { addr: 0x1800_0d6c });
}

#[verifier::spinoff_prover]
#[verifier::rlimit(40)]
proof fn lemma_init_step(
    opts: Options,
    addr: u32,
    ctrl: HostCtrl,
    stage: InitStageView,
    replies: Seq<Reply>,
    acts: Seq<ActionView>,
    ready: Seq<u32>,
    awake: Seq<u32>,
)
    requires
        init_waits(stage, addr, acts, ready, awake),
    ensures
        ({
            let step = init_next(opts, addr, ctrl, stage, replies);
            let word = words_of(replies)[0];
            init_waits(
                step.stage,
                step.addr,
                acts + step.acts,
                if stage is AwaitingReady {
                    ready.push(word)
                } else {
                    ready
                },
                if stage is AwaitingAwake {
                    awake.push(word)
                } else {
                    awake
                },
            )
        }),
{
    let step = init_next(opts, addr, ctrl, stage, replies);
    let word = words_of(replies)[0];
    lemma_contains(acts, step.acts, ActionView::Read32 { addr: 0x1800_0d68 });
    lemma_contains(acts, step.acts, ActionView::Read32 { addr: 0x1800_0d6c });
    lemma_pointers_stay_reset(acts, step.acts, step.addr);
    lemma_one_more(ready, word, 0x0100_0000);
    lemma_one_more(awake, word, 0x100);
    match stage {
        InitStageView::Uploading(upload) => {
            let (next, reads) = next_record(upload.rest, upload.state);
            let first = seq![upload.write(words_of(replies))] + reads;
            lemma_reads_asked(upload.rest, upload.state);
            lemma_contains(acts, first, ActionView::Read32 { addr: 0x1800_0d68 });
            lemma_contains(acts, first, ActionView::Read32 { addr: 0x1800_0d6c });
            lemma_uploaded(addr, ctrl, next, acts + first);
            assert(acts + step.acts =~= acts + first + uploaded(addr, ctrl, next).acts);
            assert(ready =~= seq![]);
            assert(awake =~= seq![]);
        },
        InitStageView::AwaitingReady(poll) => {
            if word & 0x0100_0000 != 0 {
                assert(step.acts =~= seq![ActionView::Read32 { addr: 0x1800_0d68 }]);
                assert(step.acts[0] == ActionView::Read32 { addr: 0x1800_0d68 });
            }
        },
        InitStageView::FindingBuffers => {
            if step.stage is AwaitingAwake {
                let at = |offset: int| ActionView::Write32 {
                    addr: (step.addr + offset) as u32,
                    value: 0,
                };
                assert(step.acts[0] == at(0x2000));
                assert(step.acts[1] == at(0x2004));
                assert(step.acts[2] == at(0x2008));
                assert(step.acts[3] == at(0x200c));
                assert(step.acts.contains(at(0x2000)));
                assert(step.acts.contains(at(0x2004)));
                assert(step.acts.contains(at(0x2008)));
                assert(step.acts.contains(at(0x200c)));
            }
        },
        InitStageView::AwaitingAwake(poll) => {
            if word & 0x100 != 0 {
                assert(step.acts =~= seq![ActionView::Read32 { addr: 0x1800_0d6c }]);
                assert(step.acts[0] == ActionView::Read32 { addr: 0x1800_0d6c });
            }
        },
        _ => {},
    }
}

proof fn lemma_init_begins(addr: u32, ctrl: HostCtrl, firmware: Seq<u8>)
    ensures
        ({
            let begun = init_begin(addr, ctrl, firmware);
            init_waits(begun.stage, begun.addr, begun.acts, seq![], seq![])
        }),
{
    let begun = init_begin(addr, ctrl, firmware);
    let (upload, reads) = first_record(firmware);
    let first = seq![
        ActionView::Write32 { addr: 0x1964_0894, value: 3 },
        ActionView::Delay { micros: 2000 },
    ] + reads;
    lemma_reads_asked(firmware.skip(firmware[0] + 2), first_state());
    lemma_uploaded(addr, ctrl, upload, first);
    assert(begun.acts =~= first + uploaded(addr, ctrl, upload).acts);
}

proof fn lemma_init_waits(
    opts: Options,
    addr: u32,
    ctrl: HostCtrl,
    firmware: Seq<u8>,
    rounds: Seq<Seq<Reply>>,
)
    ensures
        ({
            let begun = init_begin(addr, ctrl, firmware);
            let run = init_run(opts, begun.addr, begun.ctrl, begun.stage, rounds);
            init_waits(
                run.stage,
                run.addr,
                begun.acts + run.acts,
                ready_words(opts, begun.addr, begun.ctrl, begun.stage, rounds),
                awake_words(opts, begun.addr, begun.ctrl, begun.stage, rounds),
            )
        }),
    decreases rounds.len(),
{
    let begun = init_begin(addr, ctrl, firmware);
    if rounds.len() == 0 {
        lemma_init_begins(addr, ctrl, firmware);
        assert(begun.acts + Seq::<ActionView>::empty() =~= begun.acts);
    } else {
        lemma_init_waits(opts, addr, ctrl, firmware, rounds.drop_last());
        let before = init_run(opts, begun.addr, begun.ctrl, begun.stage, rounds.drop_last());
        let step = init_next(opts, before.addr, before.ctrl, before.stage, rounds.last());
        lemma_init_step(
            opts,
            before.addr,
            before.ctrl,
            before.stage,
            rounds.last(),
            begun.acts + before.acts,
            ready_words(opts, begun.addr, begun.ctrl, begun.stage, rounds.drop_last()),
            awake_words(opts, begun.addr, begun.ctrl, begun.stage, rounds.drop_last()),
        );
        assert(begun.acts + (before.acts + step.acts) =~= begun.acts + before.acts + step.acts);
    }
}

/// While the Bluetooth core is brought up, the address of the shared buffers is
/// asked for exactly when a status word with the ready bit was read, and the host
/// control register exactly when, with the ring pointers reset, a status word with
/// the awake bit was read. Each of the two waits takes 300 status words at most;
/// without the bit in any of them it fails.
pub proof fn law_bring_up_waits(
    opts: Options,
    addr: u32,
    ctrl: HostCtrl,
    firmware: Seq<u8>,
    rounds: Seq<Seq<Reply>>,
)
    ensures
        ({
            let begun = init_begin(addr, ctrl, firmware);
            let run = init_run(opts, begun.addr, begun.ctrl, begun.stage, rounds);
            let acts = begun.acts + run.acts;
            let ready = ready_words(opts, begun.addr, begun.ctrl, begun.stage, rounds);
            let awake = awake_words(opts, begun.addr, begun.ctrl, begun.stage, rounds);
            &&& ready.len() <= 300
            &&& asked(acts, 0x1800_0d68) <==> ready.len() > 0 && ready.last() & 0x0100_0000 != 0
            &&& ready.len() > 0 ==> all_lack(ready.drop_last(), 0x0100_0000)
            &&& ready.len() == 300 && ready.last() & 0x0100_0000 == 0 ==> run.stage
                == InitStageView::Failed(Fault::PollTimeout)
            &&& awake.len() > 0 ==> asked(acts, 0x1800_0d68) && pointers_reset(acts, run.addr)
            &&& awake.len() <= 300
            &&& asked(acts, 0x1800_0d6c) <==> awake.len() > 0 && awake.last() & 0x100 != 0
            &&& awake.len() > 0 ==> all_lack(awake.drop_last(), 0x100)
            &&& awake.len() == 300 && awake.last() & 0x100 == 0 ==> run.stage
                == InitStageView::Failed(Fault::PollTimeout)
            &&& run.stage is Done ==> asked(acts, 0x1800_0d6c)
        }),
{
    lemma_init_waits(opts, addr, ctrl, firmware, rounds);
}

/// Between two status words of a wait there is one millisecond, and nothing else
/// is done: until the awaited bit is set, the status register is all that is asked
/// for.
pub proof fn law_bring_up_waits_idly(
    opts: Options,
    addr: u32,
    ctrl: HostCtrl,
    firmware: Seq<u8>,
    rounds: Seq<Seq<Reply>>,
    replies: Seq<Reply>,
)
    ensures
        ({
            let begun = init_begin(addr, ctrl, firmware);
            let run = init_run(opts, begun.addr, begun.ctrl, begun.stage, rounds);
            let step = init_next(opts, run.addr, run.ctrl, run.stage, replies);
            let word = words_of(replies)[0];
            let again = seq![
                ActionView::Delay { micros: 1000 },
                ActionView::Read32 { addr: 0x1800_0c7c },
            ];
            let ready = ready_words(opts, begun.addr, begun.ctrl, begun.stage, rounds);
            let awake = awake_words(opts, begun.addr, begun.ctrl, begun.stage, rounds);
            &&& run.stage is AwaitingReady ==> {
                if word & 0x0100_0000 != 0 {
                    step.stage is FindingBuffers && step.acts =~= seq![
                        ActionView::Read32 { addr: 0x1800_0d68 },
                    ]
                } else if ready.len() < 299 {
                    step.stage is AwaitingReady && step.acts =~= again
                } else {
                    step.stage is Failed && step.acts =~= again.drop_last()
                }
            }
            &&& run.stage is AwaitingAwake ==> {
                if word & 0x100 != 0 {
                    step.stage is Syncing && step.acts =~= seq![
                        ActionView::Read32 { addr: 0x1800_0d6c },
                    ]
                } else if awake.len() < 299 {
                    step.stage is AwaitingAwake && step.acts =~= again
                } else {
                    step.stage is Failed && step.acts =~= again.drop_last()
                }
            }
        }),
{
    lemma_init_waits(opts, addr, ctrl, firmware, rounds);
}

/// The status words that were read for the Bluetooth core to be awake, before a
/// packet is sent.
pub open spec fn wake_words(
    opts: Options,
    addr: u32,
    tx: TxState,
    ctrl: HostCtrl,
    stage: TxStage,
    rounds: Seq<Seq<Reply>>,
) -> Seq<u32>
    decreases rounds.len(),
{
    if rounds.len() == 0 {
        seq![]
    } else {
        let before = tx_run(opts, addr, tx, ctrl, stage, rounds.drop_last());
        let words = wake_words(opts, addr, tx, ctrl, stage, rounds.drop_last());
        if before.stage is Awaiting {
            words.push(word_of(rounds.last()[0]))
        } else {
            words
        }
    }
}

/// Whether nothing is written but the host control register.
pub open spec fn only_register_written(acts: Seq<ActionView>) -> bool {
    forall|i: int|
        0 <= i < acts.len() ==> !((#[trigger] acts[i]) is WriteBlock) && (acts[i] is Write32
            ==> acts[i]->Write32_addr == 0x1800_0d6c)
}

/// Whether the packet was asked for.
pub open spec fn packet_asked(acts: Seq<ActionView>) -> bool {
    acts.contains(ActionView::TakeTx)
}

spec fn tx_waits(stage: TxStage, ctrl: HostCtrl, acts: Seq<ActionView>, words: Seq<u32>) -> bool {
    match stage {
        TxStage::Waking(update) => {
            &&& update.change == HostCtrlChange::SetAwake(true)
            &&& update.running()
            &&& update.stage is Written ==> ctrl.cache & 0x0002_0000 != 0
            &&& words.len() == 0 && !packet_asked(acts) && only_register_written(acts)
        },
        TxStage::Awaiting(poll) => {
            &&& waits(poll, words, 0x100)
            &&& ctrl.cache & 0x0002_0000 != 0
            &&& !packet_asked(acts) && only_register_written(acts)
        },
        TxStage::Failed(fault) => {
            &&& ended(words, 0x100, packet_asked(acts), fault)
            &&& words.len() > 0 ==> ctrl.cache & 0x0002_0000 != 0
            &&& !packet_asked(acts) ==> only_register_written(acts)
        },
        _ => {
            &&& seen_at_last(words, 0x100) && packet_asked(acts)
            &&& ctrl.cache & 0x0002_0000 != 0
        },
    }
}

/// A change only reads and writes the host control register, and reports.
spec fn quiet(acts: Seq<ActionView>) -> bool {
    only_register_written(acts) && !packet_asked(acts)
}

proof fn lemma_quiet(a: Seq<ActionView>, b: Seq<ActionView>)
    ensures
        quiet(a) && quiet(b) ==> quiet(a + b),
{
    lemma_contains(a, b, ActionView::TakeTx);
    if quiet(a) && quiet(b) {
        assert forall|i: int| 0 <= i < (a + b).len() implies !((#[trigger] (a + b)[i])
            is WriteBlock) && ((a + b)[i] is Write32 ==> (a + b)[i]->Write32_addr
            == 0x1800_0d6c) by {
            if i < a.len() {
                assert((a + b)[i] == a[i]);
            } else {
                assert((a + b)[i] == b[i - a.len()]);
            }
        }
    }
}

spec fn kept_awake(step: UpdateStep) -> bool {
    &&& quiet(step.acts)
    &&& step.stage is Written || step.stage is Done ==> step.ctrl.cache & 0x0002_0000 != 0
    &&& !(step.stage matches UpdateStage::Failed(f) && f is PollTimeout)
}

proof fn lemma_wake_begins(opts: Options, ctrl: HostCtrl)
    ensures
        kept_awake(update_begin(opts, ctrl, HostCtrlChange::SetAwake(true))),
{
    assert(forall|v: u32| #![auto] (v | 0x0002_0000) & 0x0002_0000 != 0) by (bit_vector);
}

proof fn lemma_wake_goes_on(
    opts: Options,
    ctrl: HostCtrl,
    update: HostCtrlUpdate,
    words: Seq<u32>,
)
    requires
        update.change == HostCtrlChange::SetAwake(true),
        update.running(),
        update.stage is Written ==> ctrl.cache & 0x0002_0000 != 0,
    ensures
        kept_awake(update_next(opts, ctrl, update, words)),
{
    assert(forall|v: u32| #![auto] (v | 0x0002_0000) & 0x0002_0000 != 0) by (bit_vector);
}

proof fn lemma_tx_step(
    opts: Options,
    addr: u32,
    tx: TxState,
    ctrl: HostCtrl,
    stage: TxStage,
    replies: Seq<Reply>,
    acts: Seq<ActionView>,
    words: Seq<u32>,
)
    requires
        tx_waits(stage, ctrl, acts, words),
    ensures
        ({
            let step = tx_next(opts, addr, tx, ctrl, stage, replies);
            tx_waits(
                step.stage,
                step.ctrl,
                acts + step.acts,
                if stage is Awaiting {
                    words.push(word_of(replies[0]))
                } else {
                    words
                },
            )
        }),
{
    let step = tx_next(opts, addr, tx, ctrl, stage, replies);
    let word = word_of(replies[0]);
    lemma_contains(acts, step.acts, ActionView::TakeTx);
    lemma_one_more(words, word, 0x100);
    lemma_quiet(acts, step.acts);
    match stage {
        TxStage::Waking(update) => {
            let first = update_next(opts, ctrl, update, words_of(replies));
            lemma_wake_goes_on(opts, ctrl, update, words_of(replies));
            lemma_quiet(first.acts, seq![ActionView::Read32 { addr: 0x1800_0c7c }]);
            lemma_quiet(first.acts, seq![]);
            assert(step.acts == first.acts + seq![ActionView::Read32 { addr: 0x1800_0c7c }]
                || step.acts == first.acts + Seq::<ActionView>::empty());
        },
        TxStage::Awaiting(poll) => {
            if word & 0x100 != 0 {
                assert(step.acts =~= seq![ActionView::TakeTx]);
                assert(step.acts[0] == ActionView::TakeTx);
            }
        },
        _ => {},
    }
}

proof fn lemma_tx_begins(opts: Options, tx: TxState, ctrl: HostCtrl)
    ensures
        ({
            let begun = tx_begin(opts, tx, ctrl);
            tx_waits(begun.stage, begun.ctrl, begun.acts, seq![])
        }),
{
    let begun = tx_begin(opts, tx, ctrl);
    let first = update_begin(opts, ctrl, HostCtrlChange::SetAwake(true));
    lemma_wake_begins(opts, ctrl);
    lemma_quiet(first.acts, seq![ActionView::Read32 { addr: 0x1800_0c7c }]);
    lemma_quiet(first.acts, seq![]);
    assert(begun.acts == first.acts + seq![ActionView::Read32 { addr: 0x1800_0c7c }] || begun.acts
        == first.acts + Seq::<ActionView>::empty());
}

proof fn lemma_tx_waits(
    opts: Options,
    addr: u32,
    tx: TxState,
    ctrl: HostCtrl,
    rounds: Seq<Seq<Reply>>,
)
    ensures
        ({
            let begun = tx_begin(opts, tx, ctrl);
            let run = tx_run(opts, addr, begun.tx, begun.ctrl, begun.stage, rounds);
            tx_waits(
                run.stage,
                run.ctrl,
                begun.acts + run.acts,
                wake_words(opts, addr, begun.tx, begun.ctrl, begun.stage, rounds),
            )
        }),
    decreases rounds.len(),
{
    let begun = tx_begin(opts, tx, ctrl);
    if rounds.len() == 0 {
        lemma_tx_begins(opts, tx, ctrl);
        assert(begun.acts + Seq::<ActionView>::empty() =~= begun.acts);
    } else {
        lemma_tx_waits(opts, addr, tx, ctrl, rounds.drop_last());
        let before = tx_run(opts, addr, begun.tx, begun.ctrl, begun.stage, rounds.drop_last());
        let step = tx_next(opts, addr, before.tx, before.ctrl, before.stage, rounds.last());
        lemma_tx_step(
            opts,
            addr,
            before.tx,
            before.ctrl,
            before.stage,
            rounds.last(),
            begun.acts + before.acts,
            wake_words(opts, addr, begun.tx, begun.ctrl, begun.stage, rounds.drop_last()),
        );
        assert(begun.acts + (before.acts + step.acts) =~= begun.acts + before.acts + step.acts);
    }
}

/// A packet is taken from the queue exactly when a status word with the awake bit
/// was read, with the wake bit set in the host control register. The wait for it
/// takes 300 status words at most; without the bit in any of them sending fails.
/// Until the packet is taken, nothing is written but the host control register.
pub proof fn law_sending_waits(
    opts: Options,
    addr: u32,
    tx: TxState,
    ctrl: HostCtrl,
    rounds: Seq<Seq<Reply>>,
)
    ensures
        ({
            let begun = tx_begin(opts, tx, ctrl);
            let run = tx_run(opts, addr, begun.tx, begun.ctrl, begun.stage, rounds);
            let acts = begun.acts + run.acts;
            let words = wake_words(opts, addr, begun.tx, begun.ctrl, begun.stage, rounds);
            &&& words.len() <= 300
            &&& packet_asked(acts) <==> words.len() > 0 && words.last() & 0x100 != 0
            &&& words.len() > 0 ==> all_lack(words.drop_last(), 0x100)
            &&& words.len() > 0 ==> run.ctrl.cache & 0x0002_0000 != 0
            &&& words.len() == 300 && words.last() & 0x100 == 0 ==> run.stage == TxStage::Failed(
                Fault::PollTimeout,
            )
            &&& !packet_asked(acts) ==> only_register_written(acts)
            &&& run.stage is Done ==> packet_asked(acts)
        }),
{
    lemma_tx_waits(opts, addr, tx, ctrl, rounds);
}

/// Between two status words there is one millisecond, and nothing else is done:
/// until the awake bit is set, the status register is all that is asked for.
#[verifier::spinoff_prover]
#[verifier::rlimit(40)]
pub proof fn law_sending_waits_idly(
    opts: Options,
    addr: u32,
    tx: TxState,
    ctrl: HostCtrl,
    rounds: Seq<Seq<Reply>>,
    replies: Seq<Reply>,
)
    ensures
        ({
            let begun = tx_begin(opts, tx, ctrl);
            let run = tx_run(opts, addr, begun.tx, begun.ctrl, begun.stage, rounds);
            let step = tx_next(opts, addr, run.tx, run.ctrl, run.stage, replies);
            let words = wake_words(opts, addr, begun.tx, begun.ctrl, begun.stage, rounds);
            let again = seq![
                ActionView::Delay { micros: 1000 },
                ActionView::Read32 { addr: 0x1800_0c7c },
            ];
            &&& begun.stage is Awaiting ==> begun.acts.len() > 0 && begun.acts.last()
                == ActionView::Read32 { addr: 0x1800_0c7c }
            &&& run.stage is Waking && step.stage is Awaiting ==> step.acts.len() > 0
                && step.acts.last() == ActionView::Read32 { addr: 0x1800_0c7c }
            &&& run.stage is Awaiting ==> {
                if word_of(replies[0]) & 0x100 != 0 {
                    step.stage is Fetching && step.acts =~= seq![ActionView::TakeTx]
                } else if words.len() < 299 {
                    step.stage is Awaiting && step.acts =~= again
                } else {
                    step.stage is Failed && step.acts =~= again.drop_last()
                }
            }
        }),
{
    lemma_tx_waits(opts, addr, tx, ctrl, rounds);
}

} // verus!
