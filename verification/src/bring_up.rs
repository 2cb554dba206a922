//! What bringing the Bluetooth core up leaves behind: the firmware image, the ring
//! pointers, and the host control register.

use vstd::prelude::*;

use crate::action::{words_of, ActionView, Reply};
use crate::arrival::register_outside;
use crate::consts::{
    BLUETOOTH_BASE_ADDRESS, BT2WLAN_PWRUP_ADDR, BT2WLAN_PWRUP_WAKE, BTSDIO_OFFSET_BT2HOST_IN,
    BTSDIO_OFFSET_BT2HOST_OUT, BTSDIO_OFFSET_HOST2BT_IN, BTSDIO_OFFSET_HOST2BT_OUT,
    HOST_CTRL_REG_ADDR,
};
use crate::firmware::law_line_read_consumes;
use crate::host_ctrl::{
    law_change_arrives, law_change_is_stored, signal_change, update_begin, update_next, HostCtrl,
    HostCtrlChange, HostCtrlUpdate, UpdateStage,
};
use crate::init::{
    init_begin, init_bt_buffers, init_next, init_signalled, law_pointers_are_reset, pointer_resets,
    readied, synced, uploaded, usable, InitStageView, InitStep,
};
use crate::memory::{
    law_memory_kept, law_performed_in_turn, performed, performed_all, stored, word_at, Memory,
};
use crate::options::Options;
use crate::poll::{Poll, PollStage};
use crate::upload::{
    first_record, first_state, image_records, law_record_write, lemma_reads_keep_memory,
    next_record, padding_reads, records, stored_all, words_read, UploadView,
};
use crate::util::u32_bytes;

verus! {

/// Where the bringing up gets to with the replies of some rounds, and all the
/// actions asked for on the way.
pub open spec fn init_run(
    opts: Options,
    addr: u32,
    ctrl: HostCtrl,
    stage: InitStageView,
    rounds: Seq<Seq<Reply>>,
) -> InitStep
    decreases rounds.len(),
{
    if rounds.len() == 0 {
        InitStep { addr, ctrl, stage, acts: seq![] }
    } else {
        let before = init_run(opts, addr, ctrl, stage, rounds.drop_last());
        init_next(opts, before.addr, before.ctrl, before.stage, rounds.last()).after(before.acts)
    }
}

/// Whether the words around each record are what memory holds there, from `mem`
/// on.
pub open spec fn faithful(
    opts: Options,
    addr: u32,
    ctrl: HostCtrl,
    stage: InitStageView,
    mem: Memory,
    rounds: Seq<Seq<Reply>>,
) -> bool
    decreases rounds.len(),
{
    rounds.len() > 0 ==> {
        let before = init_run(opts, addr, ctrl, stage, rounds.drop_last());
        &&& faithful(opts, addr, ctrl, stage, mem, rounds.drop_last())
        &&& before.stage matches InitStageView::Uploading(upload) ==> words_of(rounds.last())
            == words_read(
            performed_all(mem, before.acts),
            padding_reads(upload.dest(), upload.count as int),
        )
    }
}

/// What the host control register read as when it was taken over.
pub open spec fn register_read_as(
    opts: Options,
    addr: u32,
    ctrl: HostCtrl,
    stage: InitStageView,
    rounds: Seq<Seq<Reply>>,
) -> u32
    decreases rounds.len(),
{
    if rounds.len() == 0 {
        0
    } else {
        let before = init_run(opts, addr, ctrl, stage, rounds.drop_last());
        if before.stage is Syncing {
            words_of(rounds.last())[0]
        } else {
            register_read_as(opts, addr, ctrl, stage, rounds.drop_last())
        }
    }
}

/// The register value with which the host reports that it is ready.
pub open spec fn ready_value(hw: u32) -> u32 {
    HostCtrlChange::SetReady.applied(hw)
}

/// The register value after the interrupt that follows.
pub open spec fn raised_value(opts: Options, hw: u32) -> u32 {
    signal_change(opts).applied(ready_value(hw))
}

/// Memory once the image is there and the ring pointers are reset.
pub open spec fn set_up(image: Memory, addr: u32) -> Memory {
    performed_all(image, pointer_resets(addr))
}

/// Memory with another value in the host control register.
pub open spec fn with_register(mem: Memory, value: u32) -> Memory {
    stored(mem, HOST_CTRL_REG_ADDR as int, u32_bytes(value))
}

proof fn lemma_register_overwritten(mem: Memory, a: u32, b: u32)
    ensures
        with_register(with_register(mem, a), b) == with_register(mem, b),
{
    assert(with_register(with_register(mem, a), b) =~= with_register(mem, b));
}

/// What memory, the cached register and the place of the shared buffers are in a
/// stage, if the image is to be in memory as in `image` and the register read as
/// `hw`.
pub open spec fn so_far(
    opts: Options,
    image: Memory,
    hw: u32,
    addr: u32,
    ctrl: HostCtrl,
    stage: InitStageView,
    mem: Memory,
) -> bool {
    let buffers = set_up(image, addr);
    match stage {
        InitStageView::Uploading(upload) => {
            &&& upload.wf()
            &&& upload.stage is Record
            &&& stored_all(
                stored(mem, upload.dest(), upload.record()),
                records(upload.rest, upload.state),
            ) == image
        },
        InitStageView::AwaitingReady(poll) => mem == image,
        InitStageView::FindingBuffers => mem == image,
        InitStageView::AwaitingAwake(poll) => usable(addr) && mem == buffers,
        InitStageView::Syncing => usable(addr) && mem == buffers,
        InitStageView::SettingReady(update) => {
            &&& usable(addr)
            &&& update.running()
            &&& update.change == HostCtrlChange::SetReady
            &&& update.stage is Reading ==> ctrl.cache == hw && mem == buffers
            &&& update.stage is Written ==> {
                ctrl.cache == ready_value(hw) && mem == with_register(buffers, ready_value(hw))
            }
        },
        InitStageView::Signalling(update) => {
            &&& usable(addr)
            &&& update.running()
            &&& update.change == signal_change(opts)
            &&& update.stage is Reading ==> {
                ctrl.cache == ready_value(hw) && mem == with_register(buffers, ready_value(hw))
            }
            &&& update.stage is Written ==> {
                &&& ctrl.cache == raised_value(opts, hw)
                &&& mem == with_register(buffers, raised_value(opts, hw))
            }
        },
        InitStageView::Done => {
            &&& usable(addr)
            &&& ctrl.cache == raised_value(opts, hw)
            &&& mem == with_register(buffers, raised_value(opts, hw))
        },
        InitStageView::Failed(fault) => true,
    }
}

/// Whether a step from memory `mem` on keeps things as they are to be.
pub open spec fn step_so_far(
    opts: Options,
    image: Memory,
    hw: u32,
    mem: Memory,
    step: InitStep,
) -> bool {
    so_far(opts, image, hw, step.addr, step.ctrl, step.stage, performed_all(mem, step.acts))
}

proof fn lemma_step_after(
    opts: Options,
    image: Memory,
    hw: u32,
    mem: Memory,
    step: InitStep,
    first: Seq<ActionView>,
)
    requires
        step_so_far(opts, image, hw, performed_all(mem, first), step),
    ensures
        step_so_far(opts, image, hw, mem, step.after(first)),
{
    law_performed_in_turn(mem, first, step.acts);
}

proof fn lemma_uploaded(
    opts: Options,
    image: Memory,
    hw: u32,
    mem: Memory,
    addr: u32,
    ctrl: HostCtrl,
    upload: UploadView,
)
    requires
        upload.stage is Record ==> so_far(
            opts,
            image,
            hw,
            addr,
            ctrl,
            InitStageView::Uploading(upload),
            mem,
        ),
        upload.stage is Done ==> mem == image,
    ensures
        step_so_far(opts, image, hw, mem, uploaded(addr, ctrl, upload)),
{
    law_memory_kept(mem, uploaded(addr, ctrl, upload).acts);
}

/// One more record is stored.
proof fn lemma_record_stored(
    opts: Options,
    image: Memory,
    hw: u32,
    mem: Memory,
    addr: u32,
    ctrl: HostCtrl,
    upload: UploadView,
    replies: Seq<Reply>,
)
    requires
        so_far(opts, image, hw, addr, ctrl, InitStageView::Uploading(upload), mem),
        words_of(replies) == words_read(mem, padding_reads(upload.dest(), upload.count as int)),
    ensures
        step_so_far(
            opts,
            image,
            hw,
            mem,
            init_next(opts, addr, ctrl, InitStageView::Uploading(upload), replies),
        ),
{
    let words = words_of(replies);
    let write = upload.write(words);
    let (next, reads) = next_record(upload.rest, upload.state);
    let after = stored(mem, upload.dest(), upload.record());
    law_record_write(upload, mem);
    law_line_read_consumes(upload.rest, upload.state, 0);
    lemma_reads_keep_memory(mem, next.dest(), next.count as int, write);
    assert(performed_all(mem, seq![write] + reads) == after);
    let list = records(upload.rest, upload.state);
    if next.stage is Record {
        assert(list.drop_first() =~= records(next.rest, next.state));
    }
    lemma_uploaded(opts, image, hw, after, addr, ctrl, next);
    lemma_step_after(opts, image, hw, mem, uploaded(addr, ctrl, next), seq![write] + reads);
}

proof fn lemma_signalled(
    opts: Options,
    image: Memory,
    hw: u32,
    mem: Memory,
    addr: u32,
    ctrl: HostCtrl,
    update: HostCtrlUpdate,
)
    requires
        update.running() ==> so_far(
            opts,
            image,
            hw,
            addr,
            ctrl,
            InitStageView::Signalling(update),
            mem,
        ),
        update.stage is Done ==> so_far(opts, image, hw, addr, ctrl, InitStageView::Done, mem),
    ensures
        step_so_far(opts, image, hw, mem, init_signalled(addr, ctrl, update)),
{
    law_memory_kept(mem, init_signalled(addr, ctrl, update).acts);
}

proof fn lemma_readied(
    opts: Options,
    image: Memory,
    hw: u32,
    mem: Memory,
    addr: u32,
    ctrl: HostCtrl,
    update: HostCtrlUpdate,
)
    requires
        usable(addr),
        update.running() ==> so_far(
            opts,
            image,
            hw,
            addr,
            ctrl,
            InitStageView::SettingReady(update),
            mem,
        ),
        update.stage is Done ==> ctrl.cache == ready_value(hw) && mem == with_register(
            set_up(image, addr),
            ready_value(hw),
        ),
    ensures
        step_so_far(opts, image, hw, mem, readied(opts, addr, ctrl, update)),
{
    if update.stage is Done {
        let change = signal_change(opts);
        let step = update_begin(opts, ctrl, change);
        let signal = HostCtrlUpdate { change, stage: step.stage };
        let after = performed_all(mem, step.acts);
        law_change_arrives(opts, ctrl, signal, seq![]);
        law_change_is_stored(mem, opts, ctrl, signal, seq![]);
        lemma_register_overwritten(set_up(image, addr), ready_value(hw), raised_value(opts, hw));
        lemma_signalled(opts, image, hw, after, addr, step.ctrl, signal);
        lemma_step_after(
            opts,
            image,
            hw,
            mem,
            init_signalled(addr, step.ctrl, signal),
            step.acts,
        );
    } else {
        law_memory_kept(mem, readied(opts, addr, ctrl, update).acts);
    }
}

proof fn lemma_synced(
    opts: Options,
    image: Memory,
    hw: u32,
    mem: Memory,
    addr: u32,
    ctrl: HostCtrl,
)
    requires
        usable(addr),
        mem == set_up(image, addr),
    ensures
        step_so_far(opts, image, hw, mem, synced(opts, addr, ctrl, hw)),
{
    let change = HostCtrlChange::SetReady;
    let taken = HostCtrl { cache: hw, ..ctrl };
    let step = update_begin(opts, taken, change);
    let update = HostCtrlUpdate { change, stage: step.stage };
    if !(synced(opts, addr, ctrl, hw).stage is Failed) {
        let after = performed_all(mem, step.acts);
        law_change_arrives(opts, taken, update, seq![]);
        law_change_is_stored(mem, opts, taken, update, seq![]);
        lemma_readied(opts, image, hw, after, addr, step.ctrl, update);
        lemma_step_after(opts, image, hw, mem, readied(opts, addr, step.ctrl, update), step.acts);
    }
}

proof fn lemma_setting_ready(
    opts: Options,
    image: Memory,
    hw: u32,
    mem: Memory,
    addr: u32,
    ctrl: HostCtrl,
    update: HostCtrlUpdate,
    replies: Seq<Reply>,
)
    requires
        so_far(opts, image, hw, addr, ctrl, InitStageView::SettingReady(update), mem),
    ensures
        step_so_far(
            opts,
            image,
            hw,
            mem,
            init_next(opts, addr, ctrl, InitStageView::SettingReady(update), replies),
        ),
{
    let words = words_of(replies);
    let step = update_next(opts, ctrl, update, words);
    let next = HostCtrlUpdate { change: update.change, stage: step.stage };
    let after = performed_all(mem, step.acts);
    law_change_arrives(opts, ctrl, update, words);
    law_change_is_stored(mem, opts, ctrl, update, words);
    lemma_readied(opts, image, hw, after, addr, step.ctrl, next);
    lemma_step_after(opts, image, hw, mem, readied(opts, addr, step.ctrl, next), step.acts);
}

proof fn lemma_signalling(
    opts: Options,
    image: Memory,
    hw: u32,
    mem: Memory,
    addr: u32,
    ctrl: HostCtrl,
    update: HostCtrlUpdate,
    replies: Seq<Reply>,
)
    requires
        so_far(opts, image, hw, addr, ctrl, InitStageView::Signalling(update), mem),
    ensures
        step_so_far(
            opts,
            image,
            hw,
            mem,
            init_next(opts, addr, ctrl, InitStageView::Signalling(update), replies),
        ),
{
    let words = words_of(replies);
    let step = update_next(opts, ctrl, update, words);
    let next = HostCtrlUpdate { change: update.change, stage: step.stage };
    let after = performed_all(mem, step.acts);
    law_change_arrives(opts, ctrl, update, words);
    law_change_is_stored(mem, opts, ctrl, update, words);
    lemma_register_overwritten(set_up(image, addr), ready_value(hw), raised_value(opts, hw));
    lemma_signalled(opts, image, hw, after, addr, step.ctrl, next);
    lemma_step_after(opts, image, hw, mem, init_signalled(addr, step.ctrl, next), step.acts);
}

proof fn lemma_buffers_found(
    opts: Options,
    image: Memory,
    hw: u32,
    addr: u32,
    ctrl: HostCtrl,
    base: u32,
)
    ensures
        step_so_far(opts, image, hw, image, init_bt_buffers(addr, ctrl, base)),
{
    let step = init_bt_buffers(addr, ctrl, base);
    if usable(base) {
        let more = step.acts.skip(4);
        assert(step.acts =~= pointer_resets(base) + more);
        law_performed_in_turn(image, pointer_resets(base), more);
        law_memory_kept(set_up(image, base), more);
    }
}

proof fn lemma_waiting(
    opts: Options,
    image: Memory,
    hw: u32,
    mem: Memory,
    addr: u32,
    ctrl: HostCtrl,
    stage: InitStageView,
    replies: Seq<Reply>,
)
    requires
        stage is AwaitingReady || stage is AwaitingAwake,
        so_far(opts, image, hw, addr, ctrl, stage, mem),
    ensures
        step_so_far(opts, image, hw, mem, init_next(opts, addr, ctrl, stage, replies)),
{
    law_memory_kept(mem, init_next(opts, addr, ctrl, stage, replies).acts);
}

proof fn lemma_one_more_round(
    opts: Options,
    image: Memory,
    hw: u32,
    mem: Memory,
    addr: u32,
    ctrl: HostCtrl,
    stage: InitStageView,
    replies: Seq<Reply>,
)
    requires
        so_far(opts, image, hw, addr, ctrl, stage, mem),
        stage matches InitStageView::Uploading(upload) ==> words_of(replies) == words_read(
            mem,
            padding_reads(upload.dest(), upload.count as int),
        ),
        stage is Syncing ==> words_of(replies)[0] == hw,
    ensures
        step_so_far(opts, image, hw, mem, init_next(opts, addr, ctrl, stage, replies)),
{
    match stage {
        InitStageView::Uploading(upload) => {
            lemma_record_stored(opts, image, hw, mem, addr, ctrl, upload, replies);
        },
        InitStageView::AwaitingReady(poll) => {
            lemma_waiting(opts, image, hw, mem, addr, ctrl, stage, replies);
        },
        InitStageView::FindingBuffers => {
            lemma_buffers_found(opts, image, hw, addr, ctrl, words_of(replies)[0]);
        },
        InitStageView::AwaitingAwake(poll) => {
            lemma_waiting(opts, image, hw, mem, addr, ctrl, stage, replies);
        },
        InitStageView::Syncing => {
            lemma_synced(opts, image, hw, mem, addr, ctrl);
        },
        InitStageView::SettingReady(update) => {
            lemma_setting_ready(opts, image, hw, mem, addr, ctrl, update, replies);
        },
        InitStageView::Signalling(update) => {
            lemma_signalling(opts, image, hw, mem, addr, ctrl, update, replies);
        },
        _ => {
            law_memory_kept(mem, init_next(opts, addr, ctrl, stage, replies).acts);
        },
    }
}

/// Before the register is taken over, its value does not matter.
proof fn lemma_register_open(
    opts: Options,
    image: Memory,
    a: u32,
    b: u32,
    addr: u32,
    ctrl: HostCtrl,
    mem: Memory,
)
    requires
        so_far(opts, image, a, addr, ctrl, InitStageView::Syncing, mem),
    ensures
        so_far(opts, image, b, addr, ctrl, InitStageView::Syncing, mem),
{
}

proof fn lemma_rounds(
    opts: Options,
    image: Memory,
    mem: Memory,
    addr: u32,
    ctrl: HostCtrl,
    stage: InitStageView,
    rounds: Seq<Seq<Reply>>,
)
    requires
        so_far(opts, image, 0, addr, ctrl, stage, mem),
        faithful(opts, addr, ctrl, stage, mem, rounds),
    ensures
        step_so_far(
            opts,
            image,
            register_read_as(opts, addr, ctrl, stage, rounds),
            mem,
            init_run(opts, addr, ctrl, stage, rounds),
        ),
    decreases rounds.len(),
{
    if rounds.len() > 0 {
        let before = init_run(opts, addr, ctrl, stage, rounds.drop_last());
        let old_hw = register_read_as(opts, addr, ctrl, stage, rounds.drop_last());
        let hw = register_read_as(opts, addr, ctrl, stage, rounds);
        let now = performed_all(mem, before.acts);
        let step = init_next(opts, before.addr, before.ctrl, before.stage, rounds.last());
        lemma_rounds(opts, image, mem, addr, ctrl, stage, rounds.drop_last());
        if before.stage is Syncing {
            lemma_register_open(opts, image, old_hw, hw, before.addr, before.ctrl, now);
        }
        lemma_one_more_round(
            opts,
            image,
            hw,
            now,
            before.addr,
            before.ctrl,
            before.stage,
            rounds.last(),
        );
        lemma_step_after(opts, image, hw, mem, step, before.acts);
    }
}

/// Memory once the Bluetooth core has power.
pub open spec fn powered(mem: Memory) -> Memory {
    performed(
        mem,
        ActionView::Write32 {
            addr: (BLUETOOTH_BASE_ADDRESS + BT2WLAN_PWRUP_ADDR) as u32,
            value: BT2WLAN_PWRUP_WAKE,
        },
    )
}

proof fn lemma_begun(opts: Options, mem: Memory, addr: u32, ctrl: HostCtrl, firmware: Seq<u8>)
    ensures
        ({
            let begun = init_begin(addr, ctrl, firmware);
            let image = stored_all(powered(mem), image_records(firmware));
            &&& performed_all(mem, begun.acts) == powered(mem)
            &&& so_far(opts, image, 0, begun.addr, begun.ctrl, begun.stage, powered(mem))
        }),
{
    let begun = init_begin(addr, ctrl, firmware);
    let (upload, reads) = first_record(firmware);
    let first = begun.acts.take(1);
    let more = begun.acts.skip(1);
    assert(begun.acts =~= first + more);
    law_performed_in_turn(mem, first, more);
    assert(first.drop_last() =~= seq![]);
    reveal_with_fuel(performed_all, 2);
    assert(performed_all(mem, first) == powered(mem));
    law_memory_kept(powered(mem), more);
    law_line_read_consumes(firmware.skip(firmware[0] + 2), first_state(), 0);
    if upload.stage is Record {
        let list = image_records(firmware);
        assert(list.drop_first() =~= records(upload.rest, upload.state));
    }
}

/// What bringing the Bluetooth core up has done when it is done, as long as the
/// words around each record are read from memory as it is then.
///
/// All the records of the image are stored, then all four ring pointers of the
/// shared buffers are 0, and then the host control register holds what it read as,
/// with the ready bit set and one interrupt raised. That value is also the cached
/// one. Nothing else in memory has changed, but for the word that powers the core.
pub proof fn law_bring_up(
    opts: Options,
    mem: Memory,
    addr: u32,
    ctrl: HostCtrl,
    firmware: Seq<u8>,
    rounds: Seq<Seq<Reply>>,
)
    requires
        ({
            let begun = init_begin(addr, ctrl, firmware);
            faithful(opts, begun.addr, begun.ctrl, begun.stage, powered(mem), rounds)
        }),
    ensures
        ({
            let begun = init_begin(addr, ctrl, firmware);
            let run = init_run(opts, begun.addr, begun.ctrl, begun.stage, rounds);
            let hw = register_read_as(opts, begun.addr, begun.ctrl, begun.stage, rounds);
            let after = performed_all(mem, begun.acts + run.acts);
            let image = stored_all(powered(mem), image_records(firmware));
            run.stage is Done ==> {
                &&& usable(run.addr)
                &&& run.ctrl.cache == signal_change(opts).applied(
                    HostCtrlChange::SetReady.applied(hw),
                )
                &&& after == with_register(set_up(image, run.addr), run.ctrl.cache)
                &&& register_outside(run.addr) ==> {
                    &&& word_at(after, run.addr + BTSDIO_OFFSET_HOST2BT_IN) == 0
                    &&& word_at(after, run.addr + BTSDIO_OFFSET_HOST2BT_OUT) == 0
                    &&& word_at(after, run.addr + BTSDIO_OFFSET_BT2HOST_IN) == 0
                    &&& word_at(after, run.addr + BTSDIO_OFFSET_BT2HOST_OUT) == 0
                }
            }
        }),
{
    let begun = init_begin(addr, ctrl, firmware);
    let run = init_run(opts, begun.addr, begun.ctrl, begun.stage, rounds);
    let image = stored_all(powered(mem), image_records(firmware));
    lemma_begun(opts, mem, addr, ctrl, firmware);
    lemma_rounds(opts, image, powered(mem), begun.addr, begun.ctrl, begun.stage, rounds);
    law_performed_in_turn(mem, begun.acts, run.acts);
    if run.stage is Done {
        law_pointers_are_reset(image, run.addr);
    }
}

/// How many rounds a change of the register takes at most.
pub open spec fn update_rounds(update: HostCtrlUpdate) -> int {
    match update.stage {
        UpdateStage::Reading { sample } => 3,
        UpdateStage::Written { sample } => if sample {
            2
        } else {
            1
        },
        _ => 0,
    }
}

/// How many rounds a wait takes at most.
pub open spec fn poll_rounds(poll: Poll) -> int {
    match poll.stage {
        PollStage::Reading { left } => 1 + left,
        _ => 0,
    }
}

/// How many rounds it takes at most until there is nothing left to do.
pub open spec fn init_rounds(stage: InitStageView) -> int {
    match stage {
        InitStageView::Uploading(upload) => 609 + records(upload.rest, upload.state).len() as int,
        InitStageView::AwaitingReady(poll) => 308 + poll_rounds(poll),
        InitStageView::FindingBuffers => 308,
        InitStageView::AwaitingAwake(poll) => 7 + poll_rounds(poll),
        InitStageView::Syncing => 7,
        InitStageView::SettingReady(update) => 3 + update_rounds(update),
        InitStageView::Signalling(update) => update_rounds(update),
        _ => 0,
    }
}

/// Whether the part of a stage that is in progress has something left to do.
pub open spec fn init_ready(stage: InitStageView) -> bool {
    match stage {
        InitStageView::Uploading(upload) => upload.stage is Record,
        InitStageView::AwaitingReady(poll) => poll.stage is Reading,
        InitStageView::AwaitingAwake(poll) => poll.stage is Reading,
        InitStageView::SettingReady(update) => update.running(),
        InitStageView::Signalling(update) => update.running(),
        _ => true,
    }
}

/// Whether the bringing up has ended.
pub open spec fn init_stopped(stage: InitStageView) -> bool {
    stage is Done || stage is Failed
}

proof fn lemma_nearer(
    opts: Options,
    addr: u32,
    ctrl: HostCtrl,
    stage: InitStageView,
    replies: Seq<Reply>,
)
    requires
        init_ready(stage),
    ensures
        ({
            let step = init_next(opts, addr, ctrl, stage, replies);
            &&& init_ready(step.stage)
            &&& init_stopped(stage) ==> step.stage == stage
            &&& !init_stopped(stage) ==> init_rounds(step.stage) < init_rounds(stage)
        }),
{
    if let InitStageView::Uploading(upload) = stage {
        law_line_read_consumes(upload.rest, upload.state, 0);
    }
}

proof fn lemma_rounds_left(
    opts: Options,
    addr: u32,
    ctrl: HostCtrl,
    stage: InitStageView,
    rounds: Seq<Seq<Reply>>,
)
    requires
        init_ready(stage),
    ensures
        ({
            let run = init_run(opts, addr, ctrl, stage, rounds);
            &&& init_ready(run.stage)
            &&& !init_stopped(run.stage) ==> rounds.len() + init_rounds(run.stage)
                <= init_rounds(stage)
        }),
    decreases rounds.len(),
{
    if rounds.len() > 0 {
        let before = init_run(opts, addr, ctrl, stage, rounds.drop_last());
        lemma_rounds_left(opts, addr, ctrl, stage, rounds.drop_last());
        lemma_nearer(opts, before.addr, before.ctrl, before.stage, rounds.last());
    }
}

/// Whatever the replies, bringing the Bluetooth core up ends: it takes one round for
/// each record of the image, and no more than 608 others.
pub proof fn law_bring_up_ends(
    opts: Options,
    addr: u32,
    ctrl: HostCtrl,
    firmware: Seq<u8>,
    rounds: Seq<Seq<Reply>>,
)
    requires
        rounds.len() >= image_records(firmware).len() + 608,
    ensures
        ({
            let begun = init_begin(addr, ctrl, firmware);
            init_stopped(init_run(opts, begun.addr, begun.ctrl, begun.stage, rounds).stage)
        }),
{
    let begun = init_begin(addr, ctrl, firmware);
    law_line_read_consumes(firmware.skip(firmware[0] + 2), first_state(), 0);
    assert(init_ready(begun.stage));
    assert(init_rounds(begun.stage) <= image_records(firmware).len() + 608);
    lemma_rounds_left(opts, begun.addr, begun.ctrl, begun.stage, rounds);
}

} // verus!
