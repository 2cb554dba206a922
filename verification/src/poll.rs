//! Waiting for a bit of the Bluetooth status register.

use vstd::prelude::*;

use crate::action::{answered, asks, word_in, word_of, Action, ActionView, Actions, Ask, Reply};
use crate::consts::BT_CTRL_REG_ADDR;
use crate::report::Fault;

verus! {

/// How often the status register is read before giving up.
pub const POLL_ATTEMPTS: u32 = 300;

/// How long to wait between two reads, in microseconds.
pub const POLL_INTERVAL_US: u64 = 1000;

/// Where the waiting stands.
#[derive(Clone, Copy, PartialEq, Eq, Structural, Debug)]
pub enum PollStage {
    /// The register has been asked for; after this read, `left` more may follow.
    Reading { left: u32 },
    Done,
    Failed(Fault),
}

/// Waits until one of the bits in `mask` is set.
#[derive(Clone, Copy, PartialEq, Eq, Structural, Debug)]
pub struct Poll {
    pub mask: u32,
    pub stage: PollStage,
}

/// The read of the status register.
pub open spec fn status_read() -> ActionView {
    ActionView::Read32 { addr: BT_CTRL_REG_ADDR }
}

impl Poll {
    /// The words that are awaited.
    pub open spec fn awaited(self) -> Seq<Ask> {
        if self.stage is Reading {
            seq![Ask::Word]
        } else {
            seq![]
        }
    }

    /// The stage after the register read as `value`.
    pub open spec fn next_stage(self, value: u32) -> PollStage {
        match self.stage {
            PollStage::Reading { left } => {
                if value & self.mask != 0 {
                    PollStage::Done
                } else if left == 0 {
                    PollStage::Failed(Fault::PollTimeout)
                } else {
                    PollStage::Reading { left: (left - 1) as u32 }
                }
            },
            _ => self.stage,
        }
    }

    /// What to do after the register read as `value`.
    pub open spec fn next_acts(self, value: u32) -> Seq<ActionView> {
        let delay = ActionView::Delay { micros: POLL_INTERVAL_US };
        match self.next_stage(value) {
            PollStage::Done => seq![],
            PollStage::Failed(_) => seq![delay],
            PollStage::Reading { .. } => seq![delay, status_read()],
        }
    }

    /// Starts to wait.
    pub fn start(mask: u32, acts: &mut Actions) -> (poll: Self)
        ensures
            poll == (Poll { mask, stage: PollStage::Reading { left: (POLL_ATTEMPTS - 1) as u32 } }),
            final(acts)@ == old(acts)@.push(status_read()),
            asks(final(acts)@) == asks(old(acts)@) + poll.awaited(),
    {
        acts.push(Action::Read32 { addr: BT_CTRL_REG_ADDR });
        let poll: Poll = Poll { mask, stage: PollStage::Reading { left: POLL_ATTEMPTS - 1 } };
        assert(asks(acts@) =~= asks(old(acts)@) + poll.awaited());
        poll
    }

    /// Goes on waiting.
    pub fn resume(&mut self, replies: &Vec<Reply>, acts: &mut Actions)
        requires
            old(self).stage is Reading,
            answered(old(self).awaited(), replies@),
        ensures
            ({
                let value = word_of(replies@[0]);
                &&& *final(self) == (Poll { stage: old(self).next_stage(value), ..*old(self) })
                &&& final(acts)@ == old(acts)@ + old(self).next_acts(value)
            }),
            asks(final(acts)@) == asks(old(acts)@) + final(self).awaited(),
    {
        assert(replies@[0] is Word);
        let value: u32 = word_in(replies, 0);
        match self.stage {
            PollStage::Reading { left } => {
                if value & self.mask != 0 {
                    self.stage = PollStage::Done;
                } else {
                    acts.push(Action::Delay { micros: POLL_INTERVAL_US });
                    if left == 0 {
                        self.stage = PollStage::Failed(Fault::PollTimeout);
                    } else {
                        acts.push(Action::Read32 { addr: BT_CTRL_REG_ADDR });
                        self.stage = PollStage::Reading { left: left - 1 };
                    }
                }
            },
            _ => {},
        }
        assert(acts@ =~= old(acts)@ + old(self).next_acts(value));
        assert(asks(acts@) =~= asks(old(acts)@) + self.awaited());
    }
}

/// The stage after the register was read once for each of `values`.
pub open spec fn polled(mask: u32, values: Seq<u32>) -> PollStage
    decreases values.len(),
{
    if values.len() == 0 {
        PollStage::Reading { left: (POLL_ATTEMPTS - 1) as u32 }
    } else {
        Poll { mask, stage: polled(mask, values.drop_last()) }.next_stage(values.last())
    }
}

/// Waiting succeeds exactly when one of the values read has an awaited bit, and
/// fails exactly when the register was read as often as it may be without one.
pub proof fn law_poll(mask: u32, values: Seq<u32>)
    requires
        values.len() <= 300,
    ensures
        polled(mask, values) is Done <==> exists|i: int|
            0 <= i < values.len() && #[trigger] values[i] & mask != 0,
        polled(mask, values) is Failed <==> values.len() == 300 && forall|i: int|
            0 <= i < values.len() ==> #[trigger] values[i] & mask == 0,
        polled(mask, values) is Reading ==> polled(mask, values)->left == 299
            - values.len(),
    decreases values.len(),
{
    if values.len() > 0 {
        let shorter = values.drop_last();
        law_poll(mask, shorter);
        assert(forall|i: int| 0 <= i < shorter.len() ==> shorter[i] == values[i]);
        assert(values.last() == values[values.len() - 1]);
        if polled(mask, shorter) is Done {
            let i = choose|i: int| 0 <= i < shorter.len() && #[trigger] shorter[i] & mask != 0;
            assert(values[i] & mask != 0);
        }
    }
}

/// Until an awaited bit is set, the status register is read again after one
/// millisecond, as long as reads are left; nothing else is done.
pub proof fn law_poll_step(poll: Poll, value: u32)
    requires
        poll.stage is Reading,
    ensures
        ({
            let stage = poll.next_stage(value);
            let acts = poll.next_acts(value);
            let left = poll.stage->left;
            let delay = ActionView::Delay { micros: 1000 };
            let read = ActionView::Read32 { addr: 0x1800_0c7c };
            if value & poll.mask != 0 {
                stage is Done && acts.len() == 0
            } else if left > 0 {
                &&& stage == (PollStage::Reading { left: (left - 1) as u32 })
                &&& acts =~= seq![delay, read]
            } else {
                stage == PollStage::Failed(Fault::PollTimeout) && acts =~= seq![delay]
            }
        }),
{
}

} // verus!
