//! The host control register. Only the host writes it, so its value is cached
//! and each change starts from the cached value.

use vstd::prelude::*;

use crate::action::{answered, asks, word_in, words_of, Action, ActionView, Actions, Ask, Reply};
use crate::consts::{
    BTSDIO_REG_DATA_VALID_BITMASK, BTSDIO_REG_HOST_CTRL_ALLOWED_BITMASK, BTSDIO_REG_SW_RDY_BITMASK,
    BTSDIO_REG_WAKE_BT_BITMASK, HOST_CTRL_REG_ADDR,
};
use crate::memory::{
    law_memory_kept, law_performed_in_turn, law_word_written, performed_all, stored, word_at,
    writes, Memory,
};
use crate::options::Options;
use crate::report::{Fault, Report, SamplePhase};
use crate::util::u32_bytes;

verus! {

/// One access in this many is sampled.
pub const HOST_CTRL_SAMPLE_EVERY_OPS: u32 = 1024;

/// One good sample in this many is reported.
pub const HOST_CTRL_REPORT_EVERY_SAMPLES: u32 = 64;

/// Whether a register value has only bits that the host may set.
pub open spec fn bits_allowed(value: u32) -> bool {
    value & !BTSDIO_REG_HOST_CTRL_ALLOWED_BITMASK == 0
}

/// Whether a register value has only bits that the host may set.
pub fn host_ctrl_bits_allowed(value: u32) -> (ok: bool)
    ensures
        ok == bits_allowed(value),
{
    value & !BTSDIO_REG_HOST_CTRL_ALLOWED_BITMASK == 0
}

/// The host control register as the host knows it.
#[derive(Clone, Copy, PartialEq, Eq, Structural, Debug)]
pub struct HostCtrl {
    /// The value last written or read.
    pub cache: u32,
    /// How many accesses there have been; it wraps around.
    pub sample_ops: u32,
    /// How many samples differed from the cache; it wraps around.
    pub sample_mismatch: u32,
}

/// A change to the host control register.
#[derive(Clone, Copy, PartialEq, Eq, Structural, Debug)]
pub enum HostCtrlChange {
    /// Report that the host is ready.
    SetReady,
    /// Keep the Bluetooth core awake, or let it sleep.
    SetAwake(bool),
    /// Raise an interrupt by toggling the data-valid bit.
    ToggleIntr,
    /// Raise an interrupt by setting the data-valid bit.
    SetIntr,
}

impl HostCtrlChange {
    /// The value after the change.
    pub open spec fn applied(self, value: u32) -> u32 {
        match self {
            HostCtrlChange::SetReady => value | BTSDIO_REG_SW_RDY_BITMASK,
            HostCtrlChange::SetAwake(true) => value | BTSDIO_REG_WAKE_BT_BITMASK,
            HostCtrlChange::SetAwake(false) => value & !BTSDIO_REG_WAKE_BT_BITMASK,
            HostCtrlChange::ToggleIntr => value ^ BTSDIO_REG_DATA_VALID_BITMASK,
            HostCtrlChange::SetIntr => value | BTSDIO_REG_DATA_VALID_BITMASK,
        }
    }

    /// The value after the change.
    pub fn apply(self, value: u32) -> (r: u32)
        ensures
            r == self.applied(value),
    {
        match self {
            HostCtrlChange::SetReady => value | BTSDIO_REG_SW_RDY_BITMASK,
            HostCtrlChange::SetAwake(true) => value | BTSDIO_REG_WAKE_BT_BITMASK,
            HostCtrlChange::SetAwake(false) => value & !BTSDIO_REG_WAKE_BT_BITMASK,
            HostCtrlChange::ToggleIntr => value ^ BTSDIO_REG_DATA_VALID_BITMASK,
            HostCtrlChange::SetIntr => value | BTSDIO_REG_DATA_VALID_BITMASK,
        }
    }

    /// The one bit that the change is about.
    pub open spec fn bit(self) -> u32 {
        match self {
            HostCtrlChange::SetReady => BTSDIO_REG_SW_RDY_BITMASK,
            HostCtrlChange::SetAwake(_) => BTSDIO_REG_WAKE_BT_BITMASK,
            HostCtrlChange::ToggleIntr => BTSDIO_REG_DATA_VALID_BITMASK,
            HostCtrlChange::SetIntr => BTSDIO_REG_DATA_VALID_BITMASK,
        }
    }
}

/// The change that raises an interrupt.
pub open spec fn signal_change(opts: Options) -> HostCtrlChange {
    if opts.intr_set {
        HostCtrlChange::SetIntr
    } else {
        HostCtrlChange::ToggleIntr
    }
}

/// The change that raises an interrupt.
pub fn bt_signal_intr(opts: &Options) -> (change: HostCtrlChange)
    ensures
        change == signal_change(*opts),
{
    if opts.intr_set {
        HostCtrlChange::SetIntr
    } else {
        HostCtrlChange::ToggleIntr
    }
}

/// A change touches no bit but its own, never sets a bit that the host may not
/// set, and a second one of the same kind undoes a toggle and repeats any other.
pub proof fn law_change(change: HostCtrlChange, value: u32)
    ensures
        change.applied(value) & !change.bit() == value & !change.bit(),
        bits_allowed(value) ==> bits_allowed(change.applied(value)),
        change is ToggleIntr ==> change.applied(change.applied(value)) == value,
        !(change is ToggleIntr) ==> change.applied(change.applied(value)) == change.applied(value),
{
    assert((value | 0x0100_0000u32) & !0x0100_0000u32 == value & !0x0100_0000u32) by (bit_vector);
    assert((value | 0x0002_0000u32) & !0x0002_0000u32 == value & !0x0002_0000u32) by (bit_vector);
    assert((value & !0x0002_0000u32) & !0x0002_0000u32 == value & !0x0002_0000u32) by (bit_vector);
    assert((value ^ 0x0000_0002u32) & !0x0000_0002u32 == value & !0x0000_0002u32) by (bit_vector);
    assert((value | 0x0000_0002u32) & !0x0000_0002u32 == value & !0x0000_0002u32) by (bit_vector);
    assert(value & !0x0102_0002u32 == 0 ==> {
        &&& (value | 0x0100_0000u32) & !0x0102_0002u32 == 0
        &&& (value | 0x0002_0000u32) & !0x0102_0002u32 == 0
        &&& (value & !0x0002_0000u32) & !0x0102_0002u32 == 0
        &&& (value ^ 0x0000_0002u32) & !0x0102_0002u32 == 0
        &&& (value | 0x0000_0002u32) & !0x0102_0002u32 == 0
    }) by (bit_vector);
    assert((value ^ 0x0000_0002u32) ^ 0x0000_0002u32 == value) by (bit_vector);
    assert((value | 0x0100_0000u32) | 0x0100_0000u32 == value | 0x0100_0000u32) by (bit_vector);
    assert((value | 0x0002_0000u32) | 0x0002_0000u32 == value | 0x0002_0000u32) by (bit_vector);
    assert((value | 0x0000_0002u32) | 0x0000_0002u32 == value | 0x0000_0002u32) by (bit_vector);
}

/// Reporting that the host is ready sets bit 24; keeping the Bluetooth core awake
/// sets bit 17, and letting it sleep clears it; an interrupt sets bit 1 or inverts
/// it. Every other bit stays as it is.
pub proof fn law_change_bit_by_bit(value: u32, bit: u32)
    requires
        bit < 32,
    ensures
        ({
            let mask = 1u32 << bit;
            let was = value & mask != 0;
            &&& HostCtrlChange::SetReady.applied(value) & mask != 0 <==> was || bit == 24
            &&& HostCtrlChange::SetAwake(true).applied(value) & mask != 0 <==> was || bit == 17
            &&& HostCtrlChange::SetAwake(false).applied(value) & mask != 0 <==> was && bit != 17
            &&& HostCtrlChange::ToggleIntr.applied(value) & mask != 0 <==> (was != (bit == 1))
            &&& HostCtrlChange::SetIntr.applied(value) & mask != 0 <==> was || bit == 1
            &&& bits_allowed(value) ==> (was ==> bit == 24 || bit == 17 || bit == 1)
        }),
        bits_allowed(value) <==> value & 0xfefd_fffd == 0,
{
    let mask = 1u32 << bit;
    assert(bit < 32 && mask == 1u32 << bit ==> {
        let was = value & mask != 0;
        &&& (value | 0x0100_0000u32) & mask != 0 <==> was || bit == 24
        &&& (value | 0x0002_0000u32) & mask != 0 <==> was || bit == 17
        &&& (value & !0x0002_0000u32) & mask != 0 <==> was && bit != 17
        &&& (value ^ 0x0000_0002u32) & mask != 0 <==> (was != (bit == 1))
        &&& (value | 0x0000_0002u32) & mask != 0 <==> was || bit == 1
        &&& value & !0x0102_0002u32 == 0 ==> (was ==> bit == 24 || bit == 17 || bit == 1)
    }) by (bit_vector);
    assert(!0x0102_0002u32 == 0xfefd_fffdu32) by (bit_vector);
}

impl HostCtrl {
    /// One more access has been counted.
    pub open spec fn counted(self) -> HostCtrl {
        HostCtrl { sample_ops: self.sample_ops.wrapping_add(1), ..self }
    }

    /// Whether the access that was counted last is one to be sampled.
    pub open spec fn due(self) -> bool {
        self.sample_ops % HOST_CTRL_SAMPLE_EVERY_OPS == 0
    }

    /// Counts an access where samples are taken, and says whether to sample it.
    fn count(&mut self, opts: &Options) -> (sample: bool)
        ensures
            *final(self) == if opts.host_ctrl_sample {
                old(self).counted()
            } else {
                *old(self)
            },
            sample == (opts.host_ctrl_sample && final(self).due()),
    {
        if opts.host_ctrl_sample {
            self.sample_ops = self.sample_ops.wrapping_add(1);
            self.sample_ops % HOST_CTRL_SAMPLE_EVERY_OPS == 0
        } else {
            false
        }
    }

    /// Takes the value of the register over into the cache.
    pub fn sync_from_hw(&mut self, opts: &Options, value: u32) -> (fault: Option<Fault>)
        ensures
            fault == if opts.strict_checks && !bits_allowed(value) {
                Some(Fault::HostCtrlBits)
            } else {
                None
            },
            *final(self) == if fault is None {
                HostCtrl { cache: value, ..*old(self) }
            } else {
                *old(self)
            },
    {
        if opts.strict_checks && !host_ctrl_bits_allowed(value) {
            return Some(Fault::HostCtrlBits);
        }
        self.cache = value;
        None
    }

    /// The state after a sample that read `hw`.
    pub open spec fn sampled(self, hw: u32) -> HostCtrl {
        if hw != self.cache {
            HostCtrl { sample_mismatch: self.sample_mismatch.wrapping_add(1), ..self }
        } else {
            self
        }
    }

    /// What a sample that read `hw` has to report.
    pub open spec fn sample_reports(self, phase: SamplePhase, hw: u32) -> Seq<ActionView> {
        let op = self.sample_ops;
        let cache = self.cache;
        let mismatches = self.sampled(hw).sample_mismatch;
        (if bits_allowed(hw) {
            seq![]
        } else {
            seq![ActionView::Log { report: Report::HostCtrlInvalidBits { phase, op, hw, cache } }]
        }) + (if hw != cache {
            let report = Report::HostCtrlMismatch { phase, op, hw, cache, mismatches };
            seq![ActionView::Log { report }]
        } else if op / HOST_CTRL_SAMPLE_EVERY_OPS % HOST_CTRL_REPORT_EVERY_SAMPLES == 0 {
            seq![
                ActionView::Log {
                    report: Report::HostCtrlSampled {
                        samples: op / HOST_CTRL_SAMPLE_EVERY_OPS,
                        mismatches,
                    },
                },
            ]
        } else {
            seq![]
        })
    }

    /// Compares a sample with the cache.
    fn sample(&mut self, phase: SamplePhase, hw: u32, acts: &mut Actions)
        ensures
            *final(self) == old(self).sampled(hw),
            final(acts)@ == old(acts)@ + old(self).sample_reports(phase, hw),
            asks(final(acts)@) == asks(old(acts)@),
    {
        let op: u32 = self.sample_ops;
        let cache: u32 = self.cache;
        if !host_ctrl_bits_allowed(hw) {
            acts.push(Action::Log { report: Report::HostCtrlInvalidBits { phase, op, hw, cache } });
        }
        if hw != cache {
            self.sample_mismatch = self.sample_mismatch.wrapping_add(1);
            let mismatches: u32 = self.sample_mismatch;
            acts.push(
                Action::Log { report: Report::HostCtrlMismatch { phase, op, hw, cache, mismatches } },
            );
        } else if (op / HOST_CTRL_SAMPLE_EVERY_OPS) % HOST_CTRL_REPORT_EVERY_SAMPLES == 0 {
            acts.push(
                Action::Log {
                    report: Report::HostCtrlSampled {
                        samples: op / HOST_CTRL_SAMPLE_EVERY_OPS,
                        mismatches: self.sample_mismatch,
                    },
                },
            );
        }
        assert(acts@ =~= old(acts)@ + old(self).sample_reports(phase, hw));
    }
}

/// Where a change stands.
#[derive(Clone, Copy, PartialEq, Eq, Structural, Debug)]
pub enum UpdateStage {
    /// The register has been read, before it is written. `sample` says whether
    /// the last of the reads is a sample.
    Reading { sample: bool },
    /// The register has been written and read again. `sample` says whether that
    /// read is a sample; a strict check reads it once more after a sample.
    Written { sample: bool },
    Done,
    Failed(Fault),
}

/// A change in progress.
#[derive(Clone, Copy, PartialEq, Eq, Structural, Debug)]
pub struct HostCtrlUpdate {
    pub change: HostCtrlChange,
    pub stage: UpdateStage,
}

/// One step of a change: the register state and the stage after it, and the
/// actions asked for.
pub struct UpdateStep {
    pub ctrl: HostCtrl,
    pub stage: UpdateStage,
    pub acts: Seq<ActionView>,
}

/// A read of the register, if `wanted`.
pub open spec fn register_read(wanted: bool) -> Seq<ActionView> {
    if wanted {
        seq![ActionView::Read32 { addr: HOST_CTRL_REG_ADDR }]
    } else {
        seq![]
    }
}

/// Writes the register.
pub open spec fn update_write(opts: Options, ctrl: HostCtrl, change: HostCtrlChange) -> UpdateStep {
    let value = change.applied(ctrl.cache);
    if opts.strict_checks && !bits_allowed(value) {
        UpdateStep { ctrl, stage: UpdateStage::Failed(Fault::HostCtrlBits), acts: seq![] }
    } else {
        let written = HostCtrl { cache: value, ..ctrl };
        let ctrl = if opts.host_ctrl_sample {
            written.counted()
        } else {
            written
        };
        let sample = opts.host_ctrl_sample && ctrl.due();
        UpdateStep {
            ctrl,
            stage: if sample || opts.strict_checks {
                UpdateStage::Written { sample }
            } else {
                UpdateStage::Done
            },
            acts: seq![ActionView::Write32 { addr: HOST_CTRL_REG_ADDR, value }] + register_read(
                sample || opts.strict_checks,
            ),
        }
    }
}

/// Starts a change. The register is read first only where strict checks ask for
/// it, or where a sample is due.
pub open spec fn update_begin(opts: Options, ctrl: HostCtrl, change: HostCtrlChange) -> UpdateStep {
    let ctrl = if opts.host_ctrl_sample {
        ctrl.counted()
    } else {
        ctrl
    };
    let sample = opts.host_ctrl_sample && ctrl.due();
    if sample || opts.strict_checks {
        UpdateStep {
            ctrl,
            stage: UpdateStage::Reading { sample },
            acts: register_read(opts.strict_checks) + register_read(sample),
        }
    } else {
        update_write(opts, ctrl, change)
    }
}

/// Whether a strict check of the register, which read `hw`, fails.
pub open spec fn strict_fault(ctrl: HostCtrl, hw: u32) -> Option<Fault> {
    if !bits_allowed(hw) {
        Some(Fault::HostCtrlBits)
    } else if hw != ctrl.cache {
        Some(Fault::HostCtrlCache)
    } else {
        None
    }
}

/// Goes on with a change, given what the register read as.
pub open spec fn update_next(
    opts: Options,
    ctrl: HostCtrl,
    update: HostCtrlUpdate,
    words: Seq<u32>,
) -> UpdateStep {
    match update.stage {
        UpdateStage::Reading { sample } => {
            if opts.strict_checks && strict_fault(ctrl, words[0]) is Some {
                UpdateStep {
                    ctrl,
                    stage: UpdateStage::Failed(strict_fault(ctrl, words[0])->Some_0),
                    acts: seq![],
                }
            } else if sample {
                let step = update_write(opts, ctrl.sampled(words.last()), update.change);
                UpdateStep {
                    acts: ctrl.sample_reports(SamplePhase::Read, words.last()) + step.acts,
                    ..step
                }
            } else {
                update_write(opts, ctrl, update.change)
            }
        },
        UpdateStage::Written { sample } => {
            if sample {
                UpdateStep {
                    ctrl: ctrl.sampled(words[0]),
                    stage: if opts.strict_checks {
                        UpdateStage::Written { sample: false }
                    } else {
                        UpdateStage::Done
                    },
                    acts: ctrl.sample_reports(SamplePhase::Write, words[0]) + register_read(
                        opts.strict_checks,
                    ),
                }
            } else {
                UpdateStep {
                    ctrl,
                    stage: if opts.strict_checks && strict_fault(ctrl, words[0]) is Some {
                        UpdateStage::Failed(strict_fault(ctrl, words[0])->Some_0)
                    } else {
                        UpdateStage::Done
                    },
                    acts: seq![],
                }
            }
        },
        _ => UpdateStep { ctrl, stage: update.stage, acts: seq![] },
    }
}

/// The words that a change in some stage waits for.
pub open spec fn update_asks(opts: Options, stage: UpdateStage) -> Seq<Ask> {
    match stage {
        UpdateStage::Reading { sample } => {
            if sample && opts.strict_checks {
                seq![Ask::Word, Ask::Word]
            } else {
                seq![Ask::Word]
            }
        },
        UpdateStage::Written { sample } => seq![Ask::Word],
        _ => seq![],
    }
}

impl HostCtrlUpdate {
    /// Whether the stage is one that the options lead to.
    pub open spec fn wf(self, opts: Options) -> bool {
        match self.stage {
            UpdateStage::Reading { sample } => sample || opts.strict_checks,
            UpdateStage::Written { sample } => sample || opts.strict_checks,
            _ => true,
        }
    }

    /// Whether there is something left to do.
    pub open spec fn running(self) -> bool {
        self.stage is Reading || self.stage is Written
    }

    /// The words that the change waits for.
    pub open spec fn awaited(self, opts: Options) -> Seq<Ask> {
        update_asks(opts, self.stage)
    }

    fn write(
        change: HostCtrlChange,
        opts: &Options,
        ctrl: &mut HostCtrl,
        acts: &mut Actions,
    ) -> (r: Self)
        ensures
            ({
                let step = update_write(*opts, *old(ctrl), change);
                &&& r == (HostCtrlUpdate { change, stage: step.stage })
                &&& *final(ctrl) == step.ctrl
                &&& final(acts)@ == old(acts)@ + step.acts
            }),
            r.wf(*opts),
            asks(final(acts)@) == asks(old(acts)@) + r.awaited(*opts),
    {
        let value: u32 = change.apply(ctrl.cache);
        assert(asks(acts@) =~= asks(acts@) + Seq::<Ask>::empty());
        if opts.strict_checks && !host_ctrl_bits_allowed(value) {
            assert(acts@ =~= old(acts)@ + Seq::<ActionView>::empty());
            return HostCtrlUpdate { change, stage: UpdateStage::Failed(Fault::HostCtrlBits) };
        }
        acts.push(Action::Write32 { addr: HOST_CTRL_REG_ADDR, value });
        ctrl.cache = value;
        let sample: bool = ctrl.count(opts);
        if sample || opts.strict_checks {
            acts.push(Action::Read32 { addr: HOST_CTRL_REG_ADDR });
        }
        assert(acts@ =~= old(acts)@ + update_write(*opts, *old(ctrl), change).acts);
        let stage: UpdateStage = if sample || opts.strict_checks {
            UpdateStage::Written { sample }
        } else {
            UpdateStage::Done
        };
        assert(asks(acts@) =~= asks(old(acts)@) + update_asks(*opts, stage));
        HostCtrlUpdate { change, stage }
    }

    /// Starts a change.
    pub fn start(
        change: HostCtrlChange,
        opts: &Options,
        ctrl: &mut HostCtrl,
        acts: &mut Actions,
    ) -> (r: Self)
        ensures
            ({
                let step = update_begin(*opts, *old(ctrl), change);
                &&& r == (HostCtrlUpdate { change, stage: step.stage })
                &&& *final(ctrl) == step.ctrl
                &&& final(acts)@ == old(acts)@ + step.acts
            }),
            r.wf(*opts),
            asks(final(acts)@) == asks(old(acts)@) + r.awaited(*opts),
    {
        let sample: bool = ctrl.count(opts);
        if sample || opts.strict_checks {
            if opts.strict_checks {
                acts.push(Action::Read32 { addr: HOST_CTRL_REG_ADDR });
            }
            if sample {
                acts.push(Action::Read32 { addr: HOST_CTRL_REG_ADDR });
            }
            let stage: UpdateStage = UpdateStage::Reading { sample };
            assert(acts@ =~= old(acts)@ + update_begin(*opts, *old(ctrl), change).acts);
            assert(asks(acts@) =~= asks(old(acts)@) + update_asks(*opts, stage));
            HostCtrlUpdate { change, stage }
        } else {
            Self::write(change, opts, ctrl, acts)
        }
    }

    /// Goes on with a change.
    pub fn resume(
        &mut self,
        opts: &Options,
        ctrl: &mut HostCtrl,
        replies: &Vec<Reply>,
        acts: &mut Actions,
    )
        requires
            old(self).wf(*opts),
            old(self).running(),
            answered(old(self).awaited(*opts), replies@),
        ensures
            ({
                let step = update_next(*opts, *old(ctrl), *old(self), words_of(replies@));
                &&& *final(self) == (HostCtrlUpdate { change: old(self).change, stage: step.stage })
                &&& *final(ctrl) == step.ctrl
                &&& final(acts)@ == old(acts)@ + step.acts
            }),
            final(self).wf(*opts),
            asks(final(acts)@) == asks(old(acts)@) + final(self).awaited(*opts),
    {
        let ghost step = update_next(*opts, *ctrl, *self, words_of(replies@));
        let ghost pre = asks(acts@);
        assert(pre =~= pre + Seq::<Ask>::empty());
        assert(acts@ =~= acts@ + Seq::<ActionView>::empty());
        assert(replies@[0] is Word && replies@.last() is Word);
        let first: u32 = word_in(replies, 0);
        let last: u32 = word_in(replies, replies.len() - 1);
        assert(words_of(replies@)[0] == first && words_of(replies@).last() == last);
        match self.stage {
            UpdateStage::Reading { sample } => {
                if opts.strict_checks {
                    if !host_ctrl_bits_allowed(first) {
                        self.stage = UpdateStage::Failed(Fault::HostCtrlBits);
                        return ;
                    }
                    if first != ctrl.cache {
                        self.stage = UpdateStage::Failed(Fault::HostCtrlCache);
                        return ;
                    }
                }
                if sample {
                    ctrl.sample(SamplePhase::Read, last, acts);
                }
                *self = Self::write(self.change, opts, ctrl, acts);
                assert(acts@ =~= old(acts)@ + step.acts);
            },
            UpdateStage::Written { sample } => {
                if sample {
                    ctrl.sample(SamplePhase::Write, first, acts);
                    if opts.strict_checks {
                        acts.push(Action::Read32 { addr: HOST_CTRL_REG_ADDR });
                        self.stage = UpdateStage::Written { sample: false };
                        assert(asks(acts@) =~= pre + seq![Ask::Word]);
                    } else {
                        self.stage = UpdateStage::Done;
                    }
                    assert(acts@ =~= old(acts)@ + step.acts);
                    return ;
                }
                if opts.strict_checks {
                    if !host_ctrl_bits_allowed(first) {
                        self.stage = UpdateStage::Failed(Fault::HostCtrlBits);
                        return ;
                    }
                    if first != ctrl.cache {
                        self.stage = UpdateStage::Failed(Fault::HostCtrlCache);
                        return ;
                    }
                }
                self.stage = UpdateStage::Done;
            },
            _ => {},
        }
    }
}

/// The value of the register in memory.
pub open spec fn register(mem: Memory) -> u32 {
    word_at(mem, HOST_CTRL_REG_ADDR as int)
}

proof fn lemma_write_reaches_register(
    mem: Memory,
    value: u32,
    before: Seq<ActionView>,
    after: Seq<ActionView>,
)
    requires
        forall|i: int| 0 <= i < before.len() ==> !writes(#[trigger] before[i]),
        forall|i: int| 0 <= i < after.len() ==> !writes(#[trigger] after[i]),
    ensures
        register(
            performed_all(
                mem,
                before + (seq![ActionView::Write32 { addr: HOST_CTRL_REG_ADDR, value }] + after),
            ),
        ) == value,
{
    let write = seq![ActionView::Write32 { addr: HOST_CTRL_REG_ADDR, value }];
    law_performed_in_turn(mem, before, write + after);
    law_memory_kept(mem, before);
    law_performed_in_turn(mem, write, after);
    law_memory_kept(performed_all(mem, write), after);
    law_word_written(mem, HOST_CTRL_REG_ADDR, value);
    assert(write.drop_last() =~= seq![]);
    reveal_with_fuel(performed_all, 2);
}

/// Whatever step a change is in, performing what it asks for leaves the register
/// equal to its cached value, if the two were equal before.
#[verifier::spinoff_prover]
#[verifier::rlimit(40)]
pub proof fn law_cache_follows_register(
    opts: Options,
    ctrl: HostCtrl,
    update: HostCtrlUpdate,
    words: Seq<u32>,
    mem: Memory,
)
    requires
        register(mem) == ctrl.cache,
    ensures
        ({
            let step = update_begin(opts, ctrl, update.change);
            register(performed_all(mem, step.acts)) == step.ctrl.cache
        }),
        ({
            let step = update_next(opts, ctrl, update, words);
            register(performed_all(mem, step.acts)) == step.ctrl.cache
        }),
{
    let value = update.change.applied(ctrl.cache);
    let none = Seq::<ActionView>::empty();
    law_memory_kept(mem, none);
    assert forall|a: bool| #[trigger]
        register(
            performed_all(
                mem,
                seq![ActionView::Write32 { addr: HOST_CTRL_REG_ADDR, value }] + register_read(a),
            ),
        ) == value by {
        let write = seq![ActionView::Write32 { addr: HOST_CTRL_REG_ADDR, value }];
        lemma_write_reaches_register(mem, value, none, register_read(a));
        assert(write + register_read(a) =~= none + (write + register_read(a)));
    }
    let begin = update_begin(opts, ctrl, update.change);
    if begin.stage is Reading {
        law_memory_kept(mem, begin.acts);
    }
    let next = update_next(opts, ctrl, update, words);
    match update.stage {
        UpdateStage::Reading { sample } => {
            if sample && !(opts.strict_checks && strict_fault(ctrl, words[0]) is Some) {
                let logs = ctrl.sample_reports(SamplePhase::Read, words.last());
                let step = update_write(opts, ctrl.sampled(words.last()), update.change);
                if step.stage is Failed {
                    law_memory_kept(mem, next.acts);
                } else {
                    let after = step.acts.skip(1);
                    lemma_write_reaches_register(mem, value, logs, after);
                    assert(next.acts =~= logs + (seq![
                        ActionView::Write32 { addr: HOST_CTRL_REG_ADDR, value },
                    ] + after));
                }
            }
        },
        UpdateStage::Written { sample } => {
            law_memory_kept(mem, next.acts);
        },
        _ => {},
    }
}

/// Strict checks never stop a change while the register holds its cached value
/// and no bit that the host may not set.
pub proof fn law_strict_checks_pass(
    opts: Options,
    ctrl: HostCtrl,
    update: HostCtrlUpdate,
    words: Seq<u32>,
)
    requires
        bits_allowed(ctrl.cache),
        update.wf(opts),
        update.running(),
        words.len() == update.awaited(opts).len(),
        forall|i: int| 0 <= i < words.len() ==> #[trigger] words[i] == ctrl.cache,
    ensures
        !(update_begin(opts, ctrl, update.change).stage is Failed),
        !(update_next(opts, ctrl, update, words).stage is Failed),
        bits_allowed(update_begin(opts, ctrl, update.change).ctrl.cache),
        bits_allowed(update_next(opts, ctrl, update, words).ctrl.cache),
{
    law_change(update.change, ctrl.cache);
}

/// A change that ends without a fault has put the changed value into the cache.
pub proof fn law_change_arrives(
    opts: Options,
    ctrl: HostCtrl,
    update: HostCtrlUpdate,
    words: Seq<u32>,
)
    ensures
        ({
            let step = update_begin(opts, ctrl, update.change);
            &&& step.stage is Reading ==> step.ctrl.cache == ctrl.cache
            &&& step.stage is Written || step.stage is Done ==> step.ctrl.cache
                == update.change.applied(ctrl.cache)
        }),
        ({
            let step = update_next(opts, ctrl, update, words);
            &&& update.stage is Reading && !(step.stage is Failed) ==> step.ctrl.cache
                == update.change.applied(ctrl.cache)
            &&& update.stage is Written ==> step.ctrl.cache == ctrl.cache
        }),
{
}

proof fn lemma_register_stored(
    mem: Memory,
    value: u32,
    before: Seq<ActionView>,
    after: Seq<ActionView>,
)
    requires
        forall|i: int| 0 <= i < before.len() ==> !writes(#[trigger] before[i]),
        forall|i: int| 0 <= i < after.len() ==> !writes(#[trigger] after[i]),
    ensures
        performed_all(
            mem,
            before + (seq![ActionView::Write32 { addr: HOST_CTRL_REG_ADDR, value }] + after),
        ) == stored(mem, HOST_CTRL_REG_ADDR as int, u32_bytes(value)),
{
    let write = seq![ActionView::Write32 { addr: HOST_CTRL_REG_ADDR, value }];
    law_performed_in_turn(mem, before, write + after);
    law_memory_kept(mem, before);
    law_performed_in_turn(mem, write, after);
    law_memory_kept(performed_all(mem, write), after);
    assert(write.drop_last() =~= seq![]);
    reveal_with_fuel(performed_all, 2);
}

proof fn lemma_write_stored(mem: Memory, opts: Options, ctrl: HostCtrl, change: HostCtrlChange)
    ensures
        ({
            let step = update_write(opts, ctrl, change);
            !(step.stage is Failed) ==> performed_all(mem, step.acts) == stored(
                mem,
                HOST_CTRL_REG_ADDR as int,
                u32_bytes(step.ctrl.cache),
            )
        }),
{
    let step = update_write(opts, ctrl, change);
    if !(step.stage is Failed) {
        let none = Seq::<ActionView>::empty();
        let after = step.acts.skip(1);
        let value = change.applied(ctrl.cache);
        lemma_register_stored(mem, value, none, after);
        assert(step.acts =~= none + (seq![ActionView::Write32 { addr: HOST_CTRL_REG_ADDR, value }]
            + after));
    }
}

/// A change stores its value in the register once, and changes nothing else in
/// memory.
pub proof fn law_change_is_stored(
    mem: Memory,
    opts: Options,
    ctrl: HostCtrl,
    update: HostCtrlUpdate,
    words: Seq<u32>,
)
    ensures
        ({
            let step = update_begin(opts, ctrl, update.change);
            let after = performed_all(mem, step.acts);
            &&& step.stage is Reading ==> after == mem
            &&& step.stage is Written || step.stage is Done ==> after == stored(
                mem,
                HOST_CTRL_REG_ADDR as int,
                u32_bytes(step.ctrl.cache),
            )
        }),
        ({
            let step = update_next(opts, ctrl, update, words);
            let after = performed_all(mem, step.acts);
            &&& update.stage is Reading && !(step.stage is Failed) ==> after == stored(
                mem,
                HOST_CTRL_REG_ADDR as int,
                u32_bytes(step.ctrl.cache),
            )
            &&& update.stage is Written ==> after == mem
        }),
{
    let counted = if opts.host_ctrl_sample {
        ctrl.counted()
    } else {
        ctrl
    };
    let begin = update_begin(opts, ctrl, update.change);
    let next = update_next(opts, ctrl, update, words);
    lemma_write_stored(mem, opts, counted, update.change);
    if begin.stage is Reading {
        law_memory_kept(mem, begin.acts);
    }
    match update.stage {
        UpdateStage::Reading { sample } => {
            if sample {
                let sampled = ctrl.sampled(words.last());
                let reports = ctrl.sample_reports(SamplePhase::Read, words.last());
                let write = update_write(opts, sampled, update.change);
                law_performed_in_turn(mem, reports, write.acts);
                law_memory_kept(mem, reports);
                lemma_write_stored(mem, opts, sampled, update.change);
            } else {
                lemma_write_stored(mem, opts, ctrl, update.change);
            }
        },
        UpdateStage::Written { sample } => {
            law_memory_kept(mem, next.acts);
        },
        _ => {},
    }
}

/// Where samples are taken, every access counts, and each 1024th is sampled. A
/// sample that differs from the cache counts as a mismatch and is reported, with
/// how many there were; of those that do not differ, one in 64 is. Bits that nobody
/// may set are always reported.
pub proof fn law_samples(ctrl: HostCtrl, phase: SamplePhase, hw: u32)
    ensures
        ctrl.counted().sample_ops == (ctrl.sample_ops + 1) % 0x1_0000_0000,
        ctrl.counted().cache == ctrl.cache,
        ctrl.counted().sample_mismatch == ctrl.sample_mismatch,
        ctrl.due() <==> ctrl.sample_ops % 1024 == 0,
        ctrl.sampled(hw).cache == ctrl.cache,
        ctrl.sampled(hw).sample_ops == ctrl.sample_ops,
        ctrl.sampled(hw).sample_mismatch == if hw == ctrl.cache {
            ctrl.sample_mismatch as int
        } else {
            (ctrl.sample_mismatch + 1) % 0x1_0000_0000
        },
        ({
            let op = ctrl.sample_ops;
            let cache = ctrl.cache;
            let mismatches = ctrl.sampled(hw).sample_mismatch;
            let bits = ActionView::Log {
                report: Report::HostCtrlInvalidBits { phase, op, hw, cache },
            };
            let differs = ActionView::Log {
                report: Report::HostCtrlMismatch { phase, op, hw, cache, mismatches },
            };
            let summary = ActionView::Log {
                report: Report::HostCtrlSampled { samples: op / 1024, mismatches },
            };
            let reports = ctrl.sample_reports(phase, hw);
            let invalid = hw & 0xfefd_fffd != 0;
            let n = reports.len() as int;
            &&& invalid <==> n > 0 && reports[0] == bits
            &&& hw != cache ==> n == (if invalid {
                2int
            } else {
                1
            }) && reports[n - 1] == differs
            &&& hw == cache && op / 1024 % 64 == 0 ==> n == (if invalid {
                2int
            } else {
                1
            }) && reports[n - 1] == summary
            &&& hw == cache && op / 1024 % 64 != 0 ==> n == (if invalid {
                1int
            } else {
                0
            })
        }),
{
    law_change_bit_by_bit(hw, 0);
}

/// A change that nothing stands in the way of writes the changed value of the
/// cache to the register and keeps it in the cache. Without strict checks and
/// samples that is all.
pub proof fn law_plain_change(opts: Options, ctrl: HostCtrl, change: HostCtrlChange)
    requires
        !opts.strict_checks,
        !opts.host_ctrl_sample,
    ensures
        ({
            let step = update_begin(opts, ctrl, change);
            let value = change.applied(ctrl.cache);
            &&& step.stage is Done
            &&& step.ctrl == (HostCtrl { cache: value, ..ctrl })
            &&& step.acts =~= seq![ActionView::Write32 { addr: 0x1800_0d6c, value }]
        }),
{
}

/// Where the register is read before it is written, a strict check that fails
/// ends the change and nothing is written: a bit that nobody may set, or a value
/// other than the cached one. Otherwise the changed value is written, unless a
/// strict check finds a bit in it that nobody may set.
pub proof fn law_checked_change(
    opts: Options,
    ctrl: HostCtrl,
    change: HostCtrlChange,
    sample: bool,
    words: Seq<u32>,
)
    requires
        words.len() >= 1,
        !opts.strict_checks ==> sample,
    ensures
        ({
            let update = HostCtrlUpdate { change, stage: UpdateStage::Reading { sample } };
            let step = update_next(opts, ctrl, update, words);
            let hw = words[0];
            let value = change.applied(ctrl.cache);
            if opts.strict_checks && hw & 0xfefd_fffd != 0 {
                &&& step.stage == UpdateStage::Failed(Fault::HostCtrlBits)
                &&& step.acts.len() == 0 && step.ctrl == ctrl
            } else if opts.strict_checks && hw != ctrl.cache {
                &&& step.stage == UpdateStage::Failed(Fault::HostCtrlCache)
                &&& step.acts.len() == 0 && step.ctrl == ctrl
            } else if opts.strict_checks && value & 0xfefd_fffd != 0 {
                &&& step.stage == UpdateStage::Failed(Fault::HostCtrlBits)
                &&& step.ctrl.cache == ctrl.cache
            } else {
                let ops = if opts.host_ctrl_sample {
                    (ctrl.sample_ops + 1) % 0x1_0000_0000
                } else {
                    ctrl.sample_ops as int
                };
                let due = opts.host_ctrl_sample && ops % 1024 == 0;
                let written = seq![ActionView::Write32 { addr: 0x1800_0d6c, value }];
                let read = seq![ActionView::Read32 { addr: 0x1800_0d6c }];
                let reports = ctrl.sample_reports(SamplePhase::Read, words.last());
                let first = if sample {
                    reports
                } else {
                    seq![]
                };
                &&& step.ctrl.cache == value
                &&& step.ctrl.sample_ops == ops
                &&& step.ctrl.sample_mismatch == if sample && words.last() != ctrl.cache {
                    (ctrl.sample_mismatch + 1) % 0x1_0000_0000
                } else {
                    ctrl.sample_mismatch as int
                }
                &&& due || opts.strict_checks ==> {
                    &&& step.stage == (UpdateStage::Written { sample: due })
                    &&& step.acts =~= first + written + read
                }
                &&& !due && !opts.strict_checks ==> {
                    step.stage is Done && step.acts =~= first + written
                }
            }
        }),
{
    law_change_bit_by_bit(words[0], 0);
    law_change_bit_by_bit(change.applied(ctrl.cache), 0);
}

/// With strict checks, or where a sample is due, the register is read before it is
/// written, for each of the two reasons once.
pub proof fn law_register_read_first(opts: Options, ctrl: HostCtrl, change: HostCtrlChange)
    ensures
        ({
            let step = update_begin(opts, ctrl, change);
            let ops = (ctrl.sample_ops + 1) % 0x1_0000_0000;
            let sample = opts.host_ctrl_sample && ops % 1024 == 0;
            let read = ActionView::Read32 { addr: 0x1800_0d6c };
            &&& sample || opts.strict_checks ==> {
                &&& step.stage == (UpdateStage::Reading { sample })
                &&& step.ctrl.cache == ctrl.cache
                &&& step.ctrl.sample_ops == if opts.host_ctrl_sample {
                    ops
                } else {
                    ctrl.sample_ops as int
                }
            }
            &&& sample && opts.strict_checks ==> step.acts =~= seq![read, read]
            &&& sample != opts.strict_checks ==> step.acts =~= seq![read]
            &&& !sample && !opts.strict_checks ==> {
                let value = change.applied(ctrl.cache);
                let write = ActionView::Write32 { addr: 0x1800_0d6c, value };
                let due = opts.host_ctrl_sample && (ctrl.sample_ops + 2) % 1024 == 0;
                &&& step.ctrl.cache == value
                &&& step.ctrl.sample_mismatch == ctrl.sample_mismatch
                &&& step.ctrl.sample_ops == if opts.host_ctrl_sample {
                    (ctrl.sample_ops + 2) % 0x1_0000_0000
                } else {
                    ctrl.sample_ops as int
                }
                &&& due ==> step.stage == (UpdateStage::Written { sample: true }) && step.acts
                    =~= seq![write, read]
                &&& !due ==> step.stage is Done && step.acts =~= seq![write]
            }
        }),
{
}

/// What is written is read again where a sample is due, and once more with strict
/// checks, which fail on a bit that nobody may set and on another value than was
/// written.
pub proof fn law_written_register_checked(
    opts: Options,
    ctrl: HostCtrl,
    change: HostCtrlChange,
    words: Seq<u32>,
)
    requires
        words.len() >= 1,
    ensures
        ({
            let hw = words[0];
            let sampled = update_next(
                opts,
                ctrl,
                HostCtrlUpdate { change, stage: UpdateStage::Written { sample: true } },
                words,
            );
            let checked = update_next(
                opts,
                ctrl,
                HostCtrlUpdate { change, stage: UpdateStage::Written { sample: false } },
                words,
            );
            let read = ActionView::Read32 { addr: 0x1800_0d6c };
            let reports = ctrl.sample_reports(SamplePhase::Write, hw);
            &&& sampled.ctrl == ctrl.sampled(hw)
            &&& opts.strict_checks ==> sampled.stage == (UpdateStage::Written { sample: false })
                && sampled.acts =~= reports.push(read)
            &&& !opts.strict_checks ==> sampled.stage is Done && sampled.acts =~= reports
            &&& checked.ctrl == ctrl && checked.acts.len() == 0
            &&& checked.stage == if opts.strict_checks && hw & 0xfefd_fffd != 0 {
                UpdateStage::Failed(Fault::HostCtrlBits)
            } else if opts.strict_checks && hw != ctrl.cache {
                UpdateStage::Failed(Fault::HostCtrlCache)
            } else {
                UpdateStage::Done
            }
        }),
{
    law_change_bit_by_bit(words[0], 0);
}

/// An interrupt is raised by inverting the data-valid bit, or by setting it where
/// the options ask for that.
pub proof fn law_interrupt_change(opts: Options, value: u32)
    ensures
        signal_change(opts).applied(value) == if opts.intr_set {
            value | 2
        } else {
            value ^ 2
        },
{
}

} // verus!
