//! Bringing the Bluetooth core up: power it, upload its firmware, wait until it
//! is ready, set up the shared buffers, and report that the host is ready.

use vstd::prelude::*;

use crate::action::{
    answered, asks, word_in, word_of, words_of, Action, ActionView, Actions, Ask, Reply,
};
use crate::consts::{
    BLUETOOTH_BASE_ADDRESS, BT2WLAN_PWRUP_ADDR, BT2WLAN_PWRUP_WAKE, BTSDIO_OFFSET_BT2HOST_IN,
    BTSDIO_OFFSET_BT2HOST_OUT, BTSDIO_OFFSET_HOST2BT_IN, BTSDIO_OFFSET_HOST2BT_OUT,
    BTSDIO_REG_BT_AWAKE_BITMASK, BTSDIO_REG_FW_RDY_BITMASK, HOST_CTRL_REG_ADDR, MAX_RAM_BASE,
    WLAN_RAM_BASE_REG_ADDR,
};
use crate::host_ctrl::{
    bits_allowed, bt_signal_intr, law_change_bit_by_bit, signal_change, update_begin, update_next,
    HostCtrl, HostCtrlChange, HostCtrlUpdate, UpdateStage,
};
use crate::memory::{performed_all, word_at, Memory};
use crate::options::Options;
use crate::poll::{status_read, Poll, PollStage, POLL_ATTEMPTS};
use crate::report::Fault;
use crate::upload::{first_record, next_record, FirmwareUpload, UploadStage, UploadView};
use crate::util::u32_bytes;

verus! {

/// How long the Bluetooth core takes to power up, in microseconds.
pub const POWER_UP_US: u64 = 2000;

/// Where the bringing up stands.
pub enum InitStage<'a> {
    /// The firmware is being uploaded.
    Uploading(FirmwareUpload<'a>),
    /// The firmware is there, and has yet to report that it is ready.
    AwaitingReady(Poll),
    /// The address of the shared buffers has been asked for.
    FindingBuffers,
    /// The ring pointers are reset, and the Bluetooth core has yet to wake up.
    AwaitingAwake(Poll),
    /// The host control register has been asked for.
    Syncing,
    /// The host reports that it is ready.
    SettingReady(HostCtrlUpdate),
    /// The interrupt is being raised.
    Signalling(HostCtrlUpdate),
    Done,
    Failed(Fault),
}

/// Where the bringing up stands.
pub enum InitStageView {
    Uploading(UploadView),
    AwaitingReady(Poll),
    FindingBuffers,
    AwaitingAwake(Poll),
    Syncing,
    SettingReady(HostCtrlUpdate),
    Signalling(HostCtrlUpdate),
    Done,
    Failed(Fault),
}

impl View for InitStage<'_> {
    type V = InitStageView;

    open spec fn view(&self) -> InitStageView {
        match self {
            InitStage::Uploading(upload) => InitStageView::Uploading(upload@),
            InitStage::AwaitingReady(poll) => InitStageView::AwaitingReady(*poll),
            InitStage::FindingBuffers => InitStageView::FindingBuffers,
            InitStage::AwaitingAwake(poll) => InitStageView::AwaitingAwake(*poll),
            InitStage::Syncing => InitStageView::Syncing,
            InitStage::SettingReady(update) => InitStageView::SettingReady(*update),
            InitStage::Signalling(update) => InitStageView::Signalling(*update),
            InitStage::Done => InitStageView::Done,
            InitStage::Failed(fault) => InitStageView::Failed(*fault),
        }
    }
}

/// One step of the bringing up: the address of the shared buffers, the register
/// and the stage after it, and the actions asked for.
pub struct InitStep {
    pub addr: u32,
    pub ctrl: HostCtrl,
    pub stage: InitStageView,
    pub acts: Seq<ActionView>,
}

impl InitStep {
    /// The step with other actions before it.
    pub open spec fn after(self, acts: Seq<ActionView>) -> InitStep {
        InitStep { acts: acts + self.acts, ..self }
    }
}

/// A wait that has just started.
pub open spec fn first_poll(mask: u32) -> Poll {
    Poll { mask, stage: PollStage::Reading { left: (POLL_ATTEMPTS - 1) as u32 } }
}

/// Goes on as far as the upload allows.
pub open spec fn uploaded(addr: u32, ctrl: HostCtrl, upload: UploadView) -> InitStep {
    match upload.stage {
        UploadStage::Done => InitStep {
            addr,
            ctrl,
            stage: InitStageView::AwaitingReady(first_poll(BTSDIO_REG_FW_RDY_BITMASK)),
            acts: seq![status_read()],
        },
        UploadStage::Failed(fault) => InitStep {
            addr,
            ctrl,
            stage: InitStageView::Failed(fault),
            acts: seq![],
        },
        UploadStage::Record => InitStep {
            addr,
            ctrl,
            stage: InitStageView::Uploading(upload),
            acts: seq![],
        },
    }
}

/// Powers the Bluetooth core up and starts to upload its firmware.
pub open spec fn init_begin(addr: u32, ctrl: HostCtrl, firmware: Seq<u8>) -> InitStep {
    let (upload, reads) = first_record(firmware);
    uploaded(addr, ctrl, upload).after(
        seq![
            ActionView::Write32 {
                addr: (BLUETOOTH_BASE_ADDRESS + BT2WLAN_PWRUP_ADDR) as u32,
                value: BT2WLAN_PWRUP_WAKE,
            },
            ActionView::Delay { micros: POWER_UP_US },
        ] + reads,
    )
}

/// The writes that reset the ring pointers.
pub open spec fn pointer_resets(addr: u32) -> Seq<ActionView> {
    seq![
        ActionView::Write32 { addr: (addr + BTSDIO_OFFSET_HOST2BT_IN) as u32, value: 0 },
        ActionView::Write32 { addr: (addr + BTSDIO_OFFSET_HOST2BT_OUT) as u32, value: 0 },
        ActionView::Write32 { addr: (addr + BTSDIO_OFFSET_BT2HOST_IN) as u32, value: 0 },
        ActionView::Write32 { addr: (addr + BTSDIO_OFFSET_BT2HOST_OUT) as u32, value: 0 },
    ]
}

/// Whether the shared buffers can start at an address: it is set, and all of them
/// have addresses.
pub open spec fn usable(base: u32) -> bool {
    0 < base <= MAX_RAM_BASE
}

/// Sets the shared buffers up at `base`.
pub open spec fn init_bt_buffers(addr: u32, ctrl: HostCtrl, base: u32) -> InitStep {
    if usable(base) {
        InitStep {
            addr: base,
            ctrl,
            stage: InitStageView::AwaitingAwake(first_poll(BTSDIO_REG_BT_AWAKE_BITMASK)),
            acts: pointer_resets(base) + seq![status_read()],
        }
    } else {
        InitStep { addr, ctrl, stage: InitStageView::Failed(Fault::RamBase), acts: seq![] }
    }
}

/// Goes on as far as the raising of the interrupt allows.
pub open spec fn init_signalled(addr: u32, ctrl: HostCtrl, update: HostCtrlUpdate) -> InitStep {
    let stage = match update.stage {
        UpdateStage::Done => InitStageView::Done,
        UpdateStage::Failed(fault) => InitStageView::Failed(fault),
        _ => InitStageView::Signalling(update),
    };
    InitStep { addr, ctrl, stage, acts: seq![] }
}

/// Goes on as far as the report that the host is ready allows; then raises an
/// interrupt.
pub open spec fn readied(
    opts: Options,
    addr: u32,
    ctrl: HostCtrl,
    update: HostCtrlUpdate,
) -> InitStep {
    match update.stage {
        UpdateStage::Done => {
            let change = signal_change(opts);
            let step = update_begin(opts, ctrl, change);
            init_signalled(addr, step.ctrl, HostCtrlUpdate { change, stage: step.stage }).after(
                step.acts,
            )
        },
        UpdateStage::Failed(fault) => InitStep {
            addr,
            ctrl,
            stage: InitStageView::Failed(fault),
            acts: seq![],
        },
        _ => InitStep { addr, ctrl, stage: InitStageView::SettingReady(update), acts: seq![] },
    }
}

/// Takes the value of the register over into the cache, and reports that the host
/// is ready.
pub open spec fn synced(opts: Options, addr: u32, ctrl: HostCtrl, value: u32) -> InitStep {
    if opts.strict_checks && !bits_allowed(value) {
        InitStep { addr, ctrl, stage: InitStageView::Failed(Fault::HostCtrlBits), acts: seq![] }
    } else {
        let change = HostCtrlChange::SetReady;
        let step = update_begin(opts, HostCtrl { cache: value, ..ctrl }, change);
        readied(opts, addr, step.ctrl, HostCtrlUpdate { change, stage: step.stage }).after(step.acts)
    }
}

/// Goes on waiting for a bit of the status register, which read as `value`:
/// asks for `wanted` if it is set, and goes on to `next` then.
pub open spec fn awaited_bit(
    addr: u32,
    ctrl: HostCtrl,
    poll: Poll,
    value: u32,
    waiting: InitStageView,
    next: InitStageView,
    wanted: u32,
) -> InitStep {
    let acts = poll.next_acts(value);
    match poll.next_stage(value) {
        PollStage::Done => InitStep {
            addr,
            ctrl,
            stage: next,
            acts: acts + seq![ActionView::Read32 { addr: wanted }],
        },
        PollStage::Failed(fault) => InitStep {
            addr,
            ctrl,
            stage: InitStageView::Failed(fault),
            acts,
        },
        _ => InitStep { addr, ctrl, stage: waiting, acts },
    }
}

/// Goes on bringing the Bluetooth core up.
pub open spec fn init_next(
    opts: Options,
    addr: u32,
    ctrl: HostCtrl,
    stage: InitStageView,
    replies: Seq<Reply>,
) -> InitStep {
    let words = words_of(replies);
    match stage {
        InitStageView::Uploading(upload) => {
            let (next, reads) = next_record(upload.rest, upload.state);
            uploaded(addr, ctrl, next).after(seq![upload.write(words)] + reads)
        },
        InitStageView::AwaitingReady(poll) => awaited_bit(
            addr,
            ctrl,
            poll,
            words[0],
            InitStageView::AwaitingReady(Poll { stage: poll.next_stage(words[0]), ..poll }),
            InitStageView::FindingBuffers,
            WLAN_RAM_BASE_REG_ADDR,
        ),
        InitStageView::FindingBuffers => init_bt_buffers(addr, ctrl, words[0]),
        InitStageView::AwaitingAwake(poll) => awaited_bit(
            addr,
            ctrl,
            poll,
            words[0],
            InitStageView::AwaitingAwake(Poll { stage: poll.next_stage(words[0]), ..poll }),
            InitStageView::Syncing,
            HOST_CTRL_REG_ADDR,
        ),
        InitStageView::Syncing => synced(opts, addr, ctrl, words[0]),
        InitStageView::SettingReady(update) => {
            let step = update_next(opts, ctrl, update, words);
            let update = HostCtrlUpdate { change: update.change, stage: step.stage };
            readied(opts, addr, step.ctrl, update).after(step.acts)
        },
        InitStageView::Signalling(update) => {
            let step = update_next(opts, ctrl, update, words);
            let update = HostCtrlUpdate { change: update.change, stage: step.stage };
            init_signalled(addr, step.ctrl, update).after(step.acts)
        },
        _ => InitStep { addr, ctrl, stage, acts: seq![] },
    }
}

/// The replies that a stage waits for.
pub open spec fn init_asks(opts: Options, stage: InitStageView) -> Seq<Ask> {
    match stage {
        InitStageView::Uploading(upload) => upload.awaited(),
        InitStageView::AwaitingReady(poll) => poll.awaited(),
        InitStageView::FindingBuffers => seq![Ask::Word],
        InitStageView::AwaitingAwake(poll) => poll.awaited(),
        InitStageView::Syncing => seq![Ask::Word],
        InitStageView::SettingReady(update) => update.awaited(opts),
        InitStageView::Signalling(update) => update.awaited(opts),
        _ => seq![],
    }
}

/// What holds of a stage.
pub open spec fn init_stage_wf(opts: Options, stage: InitStageView) -> bool {
    match stage {
        InitStageView::Uploading(upload) => upload.wf() && upload.stage is Record,
        InitStageView::AwaitingReady(poll) => poll.stage is Reading,
        InitStageView::AwaitingAwake(poll) => poll.stage is Reading,
        InitStageView::SettingReady(update) => update.wf(opts) && update.running(),
        InitStageView::Signalling(update) => update.wf(opts) && update.running(),
        _ => true,
    }
}

/// Whether a step leads to this, and the actions asked for are answered by what
/// the new stage waits for.
pub open spec fn init_took(
    opts: Options,
    step: InitStep,
    addr: u32,
    ctrl: HostCtrl,
    stage: InitStageView,
    before: Seq<ActionView>,
    after: Seq<ActionView>,
) -> bool {
    &&& addr == step.addr
    &&& ctrl == step.ctrl
    &&& stage == step.stage
    &&& after == before + step.acts
    &&& init_stage_wf(opts, stage)
    &&& asks(after) == asks(before) + init_asks(opts, stage)
}

/// The bringing up of the Bluetooth core.
pub struct InitBluetooth<'a> {
    pub stage: InitStage<'a>,
}

impl<'a> InitBluetooth<'a> {
    /// The replies that are awaited.
    pub open spec fn awaited(self, opts: Options) -> Seq<Ask> {
        init_asks(opts, self.stage@)
    }

    /// Whether there is something left to do.
    pub open spec fn running(self) -> bool {
        !(self.stage is Done || self.stage is Failed)
    }

    /// What holds of a stage.
    pub open spec fn wf(self, opts: Options) -> bool {
        init_stage_wf(opts, self.stage@)
    }

    fn uploaded(
        opts: &Options,
        addr: u32,
        ctrl: &HostCtrl,
        upload: FirmwareUpload<'a>,
        acts: &mut Actions,
    ) -> (stage: InitStage<'a>)
        requires
            upload@.wf(),
        ensures
            ({
                let step = uploaded(addr, *ctrl, upload@);
                &&& stage@ == step.stage
                &&& final(acts)@ == old(acts)@ + step.acts
            }),
            init_stage_wf(*opts, stage@),
            asks(final(acts)@) == if upload.stage is Record {
                asks(old(acts)@)
            } else {
                asks(old(acts)@) + init_asks(*opts, stage@)
            },
    {
        assert(acts@ =~= acts@ + Seq::<ActionView>::empty());
        assert(asks(acts@) =~= asks(acts@) + Seq::<Ask>::empty());
        match upload.stage {
            UploadStage::Done => {
                let poll: Poll = Poll::start(BTSDIO_REG_FW_RDY_BITMASK, acts);
                assert(acts@ =~= old(acts)@ + seq![status_read()]);
                InitStage::AwaitingReady(poll)
            },
            UploadStage::Failed(fault) => InitStage::Failed(fault),
            UploadStage::Record => InitStage::Uploading(upload),
        }
    }

    fn init_bt_buffers(
        opts: &Options,
        addr: &mut u32,
        ctrl: &HostCtrl,
        base: u32,
        acts: &mut Actions,
    ) -> (stage: InitStage<'a>)
        ensures
            init_took(
                *opts,
                init_bt_buffers(*old(addr), *ctrl, base),
                *final(addr),
                *ctrl,
                stage@,
                old(acts)@,
                final(acts)@,
            ),
    {
        assert(acts@ =~= acts@ + Seq::<ActionView>::empty());
        assert(asks(acts@) =~= asks(acts@) + Seq::<Ask>::empty());
        if base == 0 || base > MAX_RAM_BASE {
            return InitStage::Failed(Fault::RamBase);
        }
        *addr = base;
        acts.push(Action::Write32 { addr: base + BTSDIO_OFFSET_HOST2BT_IN, value: 0 });
        acts.push(Action::Write32 { addr: base + BTSDIO_OFFSET_HOST2BT_OUT, value: 0 });
        acts.push(Action::Write32 { addr: base + BTSDIO_OFFSET_BT2HOST_IN, value: 0 });
        acts.push(Action::Write32 { addr: base + BTSDIO_OFFSET_BT2HOST_OUT, value: 0 });
        let poll: Poll = Poll::start(BTSDIO_REG_BT_AWAKE_BITMASK, acts);
        assert(acts@ =~= old(acts)@ + (pointer_resets(base) + seq![status_read()]));
        InitStage::AwaitingAwake(poll)
    }

    fn init_signalled(
        opts: &Options,
        addr: u32,
        ctrl: &HostCtrl,
        update: HostCtrlUpdate,
    ) -> (stage: InitStage<'a>)
        requires
            update.wf(*opts),
        ensures
            stage@ == init_signalled(addr, *ctrl, update).stage,
            init_stage_wf(*opts, stage@),
            init_asks(*opts, stage@) == update.awaited(*opts),
    {
        match update.stage {
            UpdateStage::Done => InitStage::Done,
            UpdateStage::Failed(fault) => InitStage::Failed(fault),
            _ => InitStage::Signalling(update),
        }
    }

    fn readied(
        opts: &Options,
        addr: u32,
        ctrl: &mut HostCtrl,
        update: HostCtrlUpdate,
        acts: &mut Actions,
    ) -> (stage: InitStage<'a>)
        requires
            update.wf(*opts),
        ensures
            ({
                let step = readied(*opts, addr, *old(ctrl), update);
                &&& stage@ == step.stage
                &&& *final(ctrl) == step.ctrl
                &&& final(acts)@ == old(acts)@ + step.acts
            }),
            init_stage_wf(*opts, stage@),
            asks(final(acts)@) == if update.running() {
                asks(old(acts)@)
            } else {
                asks(old(acts)@) + init_asks(*opts, stage@)
            },
    {
        let ghost step = readied(*opts, addr, *ctrl, update);
        assert(acts@ =~= acts@ + Seq::<ActionView>::empty());
        assert(asks(acts@) =~= asks(acts@) + Seq::<Ask>::empty());
        match update.stage {
            UpdateStage::Done => {
                let signal: HostCtrlUpdate = HostCtrlUpdate::start(
                    bt_signal_intr(opts),
                    opts,
                    ctrl,
                    acts,
                );
                assert(acts@ =~= old(acts)@ + step.acts);
                Self::init_signalled(opts, addr, ctrl, signal)
            },
            UpdateStage::Failed(fault) => InitStage::Failed(fault),
            _ => InitStage::SettingReady(update),
        }
    }

    fn synced(
        opts: &Options,
        addr: u32,
        ctrl: &mut HostCtrl,
        value: u32,
        acts: &mut Actions,
    ) -> (stage: InitStage<'a>)
        ensures
            init_took(
                *opts,
                synced(*opts, addr, *old(ctrl), value),
                addr,
                *final(ctrl),
                stage@,
                old(acts)@,
                final(acts)@,
            ),
    {
        let ghost step = synced(*opts, addr, *ctrl, value);
        assert(acts@ =~= acts@ + Seq::<ActionView>::empty());
        assert(asks(acts@) =~= asks(acts@) + Seq::<Ask>::empty());
        if let Some(fault) = ctrl.sync_from_hw(opts, value) {
            return InitStage::Failed(fault);
        }
        let update: HostCtrlUpdate = HostCtrlUpdate::start(HostCtrlChange::SetReady, opts, ctrl, acts);
        assert(!update.running() ==> asks(acts@) =~= asks(old(acts)@));
        let stage: InitStage<'a> = Self::readied(opts, addr, ctrl, update, acts);
        assert(acts@ =~= old(acts)@ + step.acts);
        stage
    }

    /// Starts to bring the Bluetooth core up.
    pub fn start(
        opts: &Options,
        addr: u32,
        ctrl: &HostCtrl,
        firmware: &'a [u8],
        acts: &mut Actions,
    ) -> (init: Self)
        ensures
            init_took(
                *opts,
                init_begin(addr, *ctrl, firmware@),
                addr,
                *ctrl,
                init.stage@,
                old(acts)@,
                final(acts)@,
            ),
    {
        let ghost step = init_begin(addr, *ctrl, firmware@);
        acts.push(
            Action::Write32 {
                addr: BLUETOOTH_BASE_ADDRESS + BT2WLAN_PWRUP_ADDR,
                value: BT2WLAN_PWRUP_WAKE,
            },
        );
        acts.push(Action::Delay { micros: POWER_UP_US });
        let upload: FirmwareUpload<'a> = FirmwareUpload::start(firmware, acts);
        assert(!(upload.stage is Record) ==> asks(acts@) =~= asks(old(acts)@));
        let stage: InitStage<'a> = Self::uploaded(opts, addr, ctrl, upload, acts);
        assert(acts@ =~= old(acts)@ + step.acts);
        InitBluetooth { stage }
    }

    fn upload_on(
        opts: &Options,
        addr: u32,
        ctrl: &HostCtrl,
        upload: FirmwareUpload<'a>,
        replies: &Vec<Reply>,
        acts: &mut Actions,
    ) -> (stage: InitStage<'a>)
        requires
            upload@.wf(),
            upload.stage is Record,
            answered(upload@.awaited(), replies@),
        ensures
            init_took(
                *opts,
                init_next(*opts, addr, *ctrl, InitStageView::Uploading(upload@), replies@),
                addr,
                *ctrl,
                stage@,
                old(acts)@,
                final(acts)@,
            ),
    {
        let ghost step = init_next(*opts, addr, *ctrl, InitStageView::Uploading(upload@), replies@);
        let mut upload: FirmwareUpload<'a> = upload;
        upload.resume(replies, acts);
        assert(!(upload.stage is Record) ==> asks(acts@) =~= asks(old(acts)@));
        let stage: InitStage<'a> = Self::uploaded(opts, addr, ctrl, upload, acts);
        assert(acts@ =~= old(acts)@ + step.acts);
        stage
    }

    fn set_ready_on(
        opts: &Options,
        addr: u32,
        ctrl: &mut HostCtrl,
        update: HostCtrlUpdate,
        replies: &Vec<Reply>,
        acts: &mut Actions,
    ) -> (stage: InitStage<'a>)
        requires
            update.wf(*opts),
            update.running(),
            answered(update.awaited(*opts), replies@),
        ensures
            init_took(
                *opts,
                init_next(*opts, addr, *old(ctrl), InitStageView::SettingReady(update), replies@),
                addr,
                *final(ctrl),
                stage@,
                old(acts)@,
                final(acts)@,
            ),
    {
        let ghost step = init_next(*opts, addr, *ctrl, InitStageView::SettingReady(update), replies@);
        let mut update: HostCtrlUpdate = update;
        update.resume(opts, ctrl, replies, acts);
        assert(!update.running() ==> asks(acts@) =~= asks(old(acts)@));
        let stage: InitStage<'a> = Self::readied(opts, addr, ctrl, update, acts);
        assert(acts@ =~= old(acts)@ + step.acts);
        stage
    }

    fn signal_on(
        opts: &Options,
        addr: u32,
        ctrl: &mut HostCtrl,
        update: HostCtrlUpdate,
        replies: &Vec<Reply>,
        acts: &mut Actions,
    ) -> (stage: InitStage<'a>)
        requires
            update.wf(*opts),
            update.running(),
            answered(update.awaited(*opts), replies@),
        ensures
            init_took(
                *opts,
                init_next(*opts, addr, *old(ctrl), InitStageView::Signalling(update), replies@),
                addr,
                *final(ctrl),
                stage@,
                old(acts)@,
                final(acts)@,
            ),
    {
        let ghost step = init_next(*opts, addr, *ctrl, InitStageView::Signalling(update), replies@);
        let mut update: HostCtrlUpdate = update;
        update.resume(opts, ctrl, replies, acts);
        assert(acts@ =~= old(acts)@ + step.acts);
        Self::init_signalled(opts, addr, ctrl, update)
    }

    /// Goes on bringing the Bluetooth core up.
    pub fn resume(
        &mut self,
        opts: &Options,
        addr: &mut u32,
        ctrl: &mut HostCtrl,
        replies: &Vec<Reply>,
        acts: &mut Actions,
    )
        requires
            old(self).wf(*opts),
            old(self).running(),
            answered(old(self).awaited(*opts), replies@),
        ensures
            init_took(
                *opts,
                init_next(*opts, *old(addr), *old(ctrl), old(self).stage@, replies@),
                *final(addr),
                *final(ctrl),
                final(self).stage@,
                old(acts)@,
                final(acts)@,
            ),
    {
        let ghost step = init_next(*opts, *addr, *ctrl, self.stage@, replies@);
        let mut stage: InitStage<'a> = InitStage::Done;
        std::mem::swap(&mut stage, &mut self.stage);
        self.stage = match stage {
            InitStage::Uploading(upload) => Self::upload_on(opts, *addr, ctrl, upload, replies, acts),
            InitStage::AwaitingReady(poll) => {
                let mut poll: Poll = poll;
                poll.resume(replies, acts);
                match poll.stage {
                    PollStage::Done => {
                        acts.push(Action::Read32 { addr: WLAN_RAM_BASE_REG_ADDR });
                        assert(acts@ =~= old(acts)@ + step.acts);
                        assert(asks(acts@) =~= asks(old(acts)@) + seq![Ask::Word]);
                        InitStage::FindingBuffers
                    },
                    PollStage::Failed(fault) => InitStage::Failed(fault),
                    _ => InitStage::AwaitingReady(poll),
                }
            },
            InitStage::FindingBuffers => {
                assert(replies@[0] is Word);
                let base: u32 = word_in(replies, 0);
                Self::init_bt_buffers(opts, addr, ctrl, base, acts)
            },
            InitStage::AwaitingAwake(poll) => {
                let mut poll: Poll = poll;
                poll.resume(replies, acts);
                match poll.stage {
                    PollStage::Done => {
                        acts.push(Action::Read32 { addr: HOST_CTRL_REG_ADDR });
                        assert(acts@ =~= old(acts)@ + step.acts);
                        assert(asks(acts@) =~= asks(old(acts)@) + seq![Ask::Word]);
                        InitStage::Syncing
                    },
                    PollStage::Failed(fault) => InitStage::Failed(fault),
                    _ => InitStage::AwaitingAwake(poll),
                }
            },
            InitStage::Syncing => {
                assert(replies@[0] is Word);
                let value: u32 = word_in(replies, 0);
                Self::synced(opts, *addr, ctrl, value, acts)
            },
            InitStage::SettingReady(update) => {
                Self::set_ready_on(opts, *addr, ctrl, update, replies, acts)
            },
            InitStage::Signalling(update) => {
                Self::signal_on(opts, *addr, ctrl, update, replies, acts)
            },
            other => other,
        };
    }
}

/// Once the shared buffers are set up, all four ring pointers are 0.
pub proof fn law_pointers_are_reset(mem: Memory, addr: u32)
    requires
        usable(addr),
    ensures
        ({
            let after = performed_all(mem, pointer_resets(addr));
            &&& word_at(after, addr + BTSDIO_OFFSET_HOST2BT_IN) == 0
            &&& word_at(after, addr + BTSDIO_OFFSET_HOST2BT_OUT) == 0
            &&& word_at(after, addr + BTSDIO_OFFSET_BT2HOST_IN) == 0
            &&& word_at(after, addr + BTSDIO_OFFSET_BT2HOST_OUT) == 0
        }),
{
    let resets = pointer_resets(addr);
    reveal_with_fuel(performed_all, 5);
    assert(resets.drop_last() =~= resets.take(3));
    assert(resets.take(3).drop_last() =~= resets.take(2));
    assert(resets.take(2).drop_last() =~= resets.take(1));
    assert(resets.take(1).drop_last() =~= seq![]);
    assert(u32_bytes(0) =~= seq![0u8, 0u8, 0u8, 0u8]);
}

/// The shared buffers are set up only where all of them have addresses, and the
/// bringing up never moves them from there to where they have not.
pub proof fn law_buffers_stay_addressable(
    opts: Options,
    addr: u32,
    ctrl: HostCtrl,
    stage: InitStageView,
    replies: Seq<Reply>,
)
    ensures
        ({
            let step = init_next(opts, addr, ctrl, stage, replies);
            &&& addr <= MAX_RAM_BASE ==> step.addr <= MAX_RAM_BASE
            &&& stage is FindingBuffers && !(step.stage is Failed) ==> usable(step.addr)
            &&& !(stage is FindingBuffers) ==> step.addr == addr
        }),
{
}

/// What the cached register holds in the last stages of the bringing up, if it
/// read as `hw` when it was taken over.
pub open spec fn on_the_way(opts: Options, hw: u32, ctrl: HostCtrl, stage: InitStageView) -> bool {
    let ready = HostCtrlChange::SetReady;
    let signal = signal_change(opts);
    match stage {
        InitStageView::SettingReady(update) => {
            &&& update.change == ready
            &&& update.stage is Reading ==> ctrl.cache == hw
            &&& update.stage is Written ==> ctrl.cache == ready.applied(hw)
        },
        InitStageView::Signalling(update) => {
            &&& update.change == signal
            &&& update.stage is Reading ==> ctrl.cache == ready.applied(hw)
            &&& update.stage is Written ==> ctrl.cache == signal.applied(ready.applied(hw))
        },
        InitStageView::Done => ctrl.cache == signal.applied(ready.applied(hw)),
        _ => stage is Failed,
    }
}

/// When the bringing up is done, the host has reported that it is ready and has
/// raised an interrupt, and nothing else of the host control register has changed.
#[verifier::spinoff_prover]
#[verifier::rlimit(40)]
pub proof fn law_host_reports_ready(
    opts: Options,
    addr: u32,
    ctrl: HostCtrl,
    hw: u32,
    stage: InitStageView,
    replies: Seq<Reply>,
)
    ensures
        ({
            let step = synced(opts, addr, ctrl, hw);
            on_the_way(opts, hw, step.ctrl, step.stage)
        }),
        init_stage_wf(opts, stage) && on_the_way(opts, hw, ctrl, stage) ==> {
            let step = init_next(opts, addr, ctrl, stage, replies);
            on_the_way(opts, hw, step.ctrl, step.stage)
        },
{
}

/// First of all the Bluetooth core is powered up, and given two milliseconds.
pub proof fn law_power_comes_first(addr: u32, ctrl: HostCtrl, firmware: Seq<u8>)
    ensures
        ({
            let begun = init_begin(addr, ctrl, firmware);
            &&& begun.acts.len() >= 2
            &&& begun.acts[0] == (ActionView::Write32 { addr: 0x1964_0894, value: 3 })
            &&& begun.acts[1] == (ActionView::Delay { micros: 2000 })
            &&& begun.addr == addr
            &&& begun.ctrl == ctrl
        }),
{
}

/// The shared buffers are where the Bluetooth core says, unless it gives no address
/// or one that leaves no room for them; then their four ring pointers are reset, and
/// the status register is asked for.
pub proof fn law_buffers_found(opts: Options, addr: u32, ctrl: HostCtrl, replies: Seq<Reply>)
    requires
        replies.len() > 0,
    ensures
        ({
            let step = init_next(opts, addr, ctrl, InitStageView::FindingBuffers, replies);
            let base = word_of(replies[0]);
            let reset = |offset: int| ActionView::Write32 {
                addr: (base + offset) as u32,
                value: 0,
            };
            &&& step.ctrl == ctrl
            &&& if base == 0 || base + 0x200c > 0xffff_ffff {
                &&& step.stage == InitStageView::Failed(Fault::RamBase)
                &&& step.addr == addr && step.acts.len() == 0
            } else {
                &&& step.stage is AwaitingAwake
                &&& step.addr == base
                &&& step.acts =~= seq![
                    reset(0x2000),
                    reset(0x2004),
                    reset(0x2008),
                    reset(0x200c),
                    ActionView::Read32 { addr: 0x1800_0c7c },
                ]
            }
        }),
{
}

/// The value that the host control register has is taken over, which strict checks
/// allow only if no bit is set that nobody may set. Then bit 24 is set in it, and
/// after that the interrupt is raised. With nothing else to do, that is all.
pub proof fn law_register_taken_over(opts: Options, addr: u32, ctrl: HostCtrl, replies: Seq<Reply>)
    requires
        replies.len() > 0,
    ensures
        ({
            let step = init_next(opts, addr, ctrl, InitStageView::Syncing, replies);
            let hw = word_of(replies[0]);
            let ready = hw | 0x0100_0000;
            let raised = if opts.intr_set {
                ready | 2
            } else {
                ready ^ 2
            };
            &&& step.addr == addr
            &&& opts.strict_checks && hw & 0xfefd_fffd != 0 ==> {
                &&& step.stage == InitStageView::Failed(Fault::HostCtrlBits)
                &&& step.ctrl == ctrl && step.acts.len() == 0
            }
            &&& opts.strict_checks ==> hw & 0xfefd_fffd != 0 || {
                &&& step.ctrl.cache == hw
                &&& step.stage matches InitStageView::SettingReady(update)
                    && update.change == HostCtrlChange::SetReady
            }
            &&& !opts.strict_checks || hw & 0xfefd_fffd == 0 ==> {
                let known = HostCtrl { cache: hw, ..ctrl };
                let change = update_begin(opts, known, HostCtrlChange::SetReady);
                let raise = update_begin(opts, change.ctrl, signal_change(opts));
                match change.stage {
                    UpdateStage::Done => {
                        &&& step.ctrl == raise.ctrl
                        &&& step.acts =~= change.acts + raise.acts
                        &&& match raise.stage {
                            UpdateStage::Done => step.stage is Done,
                            UpdateStage::Failed(fault) => step.stage == InitStageView::Failed(
                                fault,
                            ),
                            stage => step.stage == InitStageView::Signalling(
                                HostCtrlUpdate { change: signal_change(opts), stage },
                            ),
                        }
                    },
                    UpdateStage::Failed(fault) => step.stage == InitStageView::Failed(fault),
                    stage => step.stage == InitStageView::SettingReady(
                        HostCtrlUpdate { change: HostCtrlChange::SetReady, stage },
                    ) && step.acts =~= change.acts && step.ctrl == change.ctrl,
                }
            }
            &&& !opts.strict_checks && !opts.host_ctrl_sample ==> {
                &&& step.stage is Done
                &&& step.ctrl == (HostCtrl { cache: raised, ..ctrl })
                &&& step.acts =~= seq![
                    ActionView::Write32 { addr: 0x1800_0d6c, value: ready },
                    ActionView::Write32 { addr: 0x1800_0d6c, value: raised },
                ]
            }
        }),
{
    law_change_bit_by_bit(word_of(replies[0]), 0);
    assert(words_of(replies)[0] == word_of(replies[0]));
}

/// Once its words are there, a record is written, and the next one is read. The end
/// of the image is followed by the first look at the status register; an image that
/// cannot be uploaded ends the bringing up.
pub proof fn law_upload_goes_on(
    opts: Options,
    addr: u32,
    ctrl: HostCtrl,
    upload: UploadView,
    replies: Seq<Reply>,
)
    ensures
        ({
            let step = init_next(opts, addr, ctrl, InitStageView::Uploading(upload), replies);
            let (next, reads) = next_record(upload.rest, upload.state);
            let first = seq![upload.write(words_of(replies))] + reads;
            &&& step.addr == addr
            &&& step.ctrl == ctrl
            &&& match next.stage {
                UploadStage::Record => step.stage == InitStageView::Uploading(next) && step.acts
                    =~= first,
                UploadStage::Done => step.stage is AwaitingReady && step.acts =~= first.push(
                    ActionView::Read32 { addr: 0x1800_0c7c },
                ),
                UploadStage::Failed(fault) => step.stage == InitStageView::Failed(fault)
                    && step.acts =~= first,
            }
        }),
{
}

/// Once the register has the ready bit, the interrupt is raised, and that ends the
/// bringing up; a change that failed ends it too.
pub proof fn law_ready_goes_on(
    opts: Options,
    addr: u32,
    ctrl: HostCtrl,
    update: HostCtrlUpdate,
    replies: Seq<Reply>,
)
    ensures
        ({
            let step = init_next(opts, addr, ctrl, InitStageView::SettingReady(update), replies);
            let change = update_next(opts, ctrl, update, words_of(replies));
            let raise = update_begin(opts, change.ctrl, signal_change(opts));
            &&& step.addr == addr
            &&& match change.stage {
                UpdateStage::Done => {
                    &&& step.ctrl == raise.ctrl
                    &&& step.acts =~= change.acts + raise.acts
                    &&& match raise.stage {
                        UpdateStage::Done => step.stage is Done,
                        UpdateStage::Failed(fault) => step.stage == InitStageView::Failed(fault),
                        stage => step.stage == InitStageView::Signalling(
                            HostCtrlUpdate { change: signal_change(opts), stage },
                        ),
                    }
                },
                UpdateStage::Failed(fault) => step.stage == InitStageView::Failed(fault)
                    && step.acts =~= change.acts && step.ctrl == change.ctrl,
                stage => step.stage == InitStageView::SettingReady(
                    HostCtrlUpdate { stage, ..update },
                ) && step.acts =~= change.acts && step.ctrl == change.ctrl,
            }
        }),
        ({
            let step = init_next(opts, addr, ctrl, InitStageView::Signalling(update), replies);
            let raise = update_next(opts, ctrl, update, words_of(replies));
            &&& step.addr == addr
            &&& step.ctrl == raise.ctrl
            &&& step.acts =~= raise.acts
            &&& match raise.stage {
                UpdateStage::Done => step.stage is Done,
                UpdateStage::Failed(fault) => step.stage == InitStageView::Failed(fault),
                stage => step.stage == InitStageView::Signalling(
                    HostCtrlUpdate { stage, ..update },
                ),
            }
        }),
{
}

} // verus!
