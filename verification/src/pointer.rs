//! Reading and writing the ring pointers in shared memory.

use vstd::prelude::*;

use crate::action::{answered, asks, word_in, word_of, Action, ActionView, Actions, Ask, Reply};
use crate::consts::{BTSDIO_OFFSET_BT2HOST_OUT, MAX_RAM_BASE};
use crate::options::Options;
use crate::report::{Fault, Report};
use crate::ring::{is_ring_pointer, ring_pointer};

verus! {

/// How often a pointer that was written is read back.
pub const READBACK_ATTEMPTS: u32 = 4;

/// How long to wait between two readbacks, in microseconds.
pub const READBACK_INTERVAL_US: u64 = 5;

/// Whether an offset into the shared buffers is that of a ring pointer, or lies
/// before them, and the buffers start where every address fits.
pub open spec fn addressable(addr: u32, offset: u32) -> bool {
    addr <= MAX_RAM_BASE && offset <= BTSDIO_OFFSET_BT2HOST_OUT
}

/// The reads of the pointer at `offset`.
pub open spec fn pointer_reads(opts: Options, addr: u32, offset: u32) -> Seq<ActionView> {
    let read = ActionView::Read32 { addr: (addr + offset) as u32 };
    if opts.pointer_stable_read {
        seq![read, read]
    } else {
        seq![read]
    }
}

/// The words awaited for [`pointer_reads`].
pub open spec fn pointer_asks(opts: Options) -> Seq<Ask> {
    if opts.pointer_stable_read {
        seq![Ask::Word, Ask::Word]
    } else {
        seq![Ask::Word]
    }
}

/// Asks for the pointer at `offset`.
pub fn read_ring_pointer(opts: &Options, addr: u32, offset: u32, acts: &mut Actions)
    requires
        addressable(addr, offset),
    ensures
        final(acts)@ == old(acts)@ + pointer_reads(*opts, addr, offset),
        asks(final(acts)@) == asks(old(acts)@) + pointer_asks(*opts),
{
    acts.push(Action::Read32 { addr: addr + offset });
    if opts.pointer_stable_read {
        acts.push(Action::Read32 { addr: addr + offset });
    }
    assert(acts@ =~= old(acts)@ + pointer_reads(*opts, addr, offset));
    assert(asks(acts@) =~= asks(old(acts)@) + pointer_asks(*opts));
}

/// The value of a pointer that was read: the last of the words read, provided
/// that, where strict checks ask for it, every one is a position in the ring.
pub open spec fn pointer_value(opts: Options, words: Seq<u32>) -> Result<u32, Fault> {
    if opts.strict_checks && !(ring_pointer(words[0]) && ring_pointer(words.last())) {
        Err(Fault::RingPointer)
    } else {
        Ok(words.last())
    }
}

/// What reading a pointer has to report.
pub open spec fn pointer_reports(offset: u32, words: Seq<u32>) -> Seq<ActionView> {
    if words[0] != words.last() {
        seq![
            ActionView::Log {
                report: Report::PointerUnstable {
                    pointer: offset,
                    first: words[0],
                    second: words.last(),
                },
            },
        ]
    } else {
        seq![]
    }
}

/// The words of a pointer in the replies from `from` on.
pub open spec fn pointer_words(opts: Options, replies: Seq<Reply>, from: int) -> Seq<u32> {
    if opts.pointer_stable_read {
        seq![word_of(replies[from]), word_of(replies[from + 1])]
    } else {
        seq![word_of(replies[from])]
    }
}

/// Takes the value of a pointer from the replies from `from` on.
pub fn ring_pointer_read(
    opts: &Options,
    offset: u32,
    replies: &Vec<Reply>,
    from: usize,
    acts: &mut Actions,
) -> (value: Result<u32, Fault>)
    requires
        from + pointer_asks(*opts).len() <= replies@.len(),
        forall|i: int| from <= i < from + pointer_asks(*opts).len() ==> #[trigger] replies@[i] is Word,
    ensures
        ({
            let words = pointer_words(*opts, replies@, from as int);
            &&& value == pointer_value(*opts, words)
            &&& final(acts)@ == old(acts)@ + if value is Ok {
                pointer_reports(offset, words)
            } else {
                seq![]
            }
        }),
        asks(final(acts)@) == asks(old(acts)@),
{
    let ghost words = pointer_words(*opts, replies@, from as int);
    assert(acts@ =~= acts@ + Seq::<ActionView>::empty());
    assert(from + pointer_asks(*opts).len() <= replies.len());
    let first: u32 = word_in(replies, from);
    let second: u32 = if opts.pointer_stable_read {
        word_in(replies, from + 1)
    } else {
        first
    };
    assert(words[0] == first && words.last() == second);
    if opts.strict_checks && !(is_ring_pointer(first) && is_ring_pointer(second)) {
        return Err(Fault::RingPointer);
    }
    if first != second {
        acts.push(Action::Log { report: Report::PointerUnstable { pointer: offset, first, second } });
    }
    assert(acts@ =~= old(acts)@ + pointer_reports(offset, words));
    Ok(second)
}

/// Where the writing of a pointer stands.
#[derive(Clone, Copy, PartialEq, Eq, Structural, Debug)]
pub enum PointerStage {
    /// The pointer has been written and asked for; after this read, `left` more
    /// may follow.
    Verifying { left: u32 },
    Done,
    Failed(Fault),
}

/// Writes a ring pointer and, where the options ask for it, reads it back until
/// it has the value that was written.
#[derive(Clone, Copy, PartialEq, Eq, Structural, Debug)]
pub struct PointerWrite {
    pub addr: u32,
    pub offset: u32,
    pub value: u32,
    pub stage: PointerStage,
}

impl PointerWrite {
    pub open spec fn wf(self) -> bool {
        addressable(self.addr, self.offset)
    }

    /// The words that are awaited.
    pub open spec fn awaited(self) -> Seq<Ask> {
        if self.stage is Verifying {
            seq![Ask::Word]
        } else {
            seq![]
        }
    }

    /// The write of the pointer.
    pub open spec fn write(self) -> ActionView {
        ActionView::Write32 { addr: (self.addr + self.offset) as u32, value: self.value }
    }

    /// A read of the pointer.
    pub open spec fn read(self) -> ActionView {
        ActionView::Read32 { addr: (self.addr + self.offset) as u32 }
    }

    /// The stage after the pointer read back as `got`.
    pub open spec fn next_stage(self, opts: Options, got: u32) -> PointerStage {
        match self.stage {
            PointerStage::Verifying { left } => {
                if opts.strict_checks && !ring_pointer(got) {
                    PointerStage::Failed(Fault::RingPointer)
                } else if got == self.value || left == 0 {
                    PointerStage::Done
                } else {
                    PointerStage::Verifying { left: (left - 1) as u32 }
                }
            },
            _ => self.stage,
        }
    }

    /// What to do after the pointer read back as `got`.
    pub open spec fn next_acts(self, opts: Options, got: u32) -> Seq<ActionView> {
        let delay = ActionView::Delay { micros: READBACK_INTERVAL_US };
        if opts.strict_checks && !ring_pointer(got) || got == self.value {
            seq![]
        } else if self.stage == (PointerStage::Verifying { left: 0 }) {
            seq![
                delay,
                ActionView::Log {
                    report: Report::PointerNotWritten { pointer: self.offset, value: self.value },
                },
            ]
        } else {
            seq![delay, self.read()]
        }
    }

    /// Starts to write a pointer.
    pub fn start(
        opts: &Options,
        addr: u32,
        offset: u32,
        value: u32,
        acts: &mut Actions,
    ) -> (r: Self)
        requires
            addressable(addr, offset),
        ensures
            r == (PointerWrite {
                addr,
                offset,
                value,
                stage: if opts.pointer_write_readback {
                    PointerStage::Verifying { left: (READBACK_ATTEMPTS - 1) as u32 }
                } else {
                    PointerStage::Done
                },
            }),
            final(acts)@ == old(acts)@ + (if opts.pointer_write_readback {
                seq![r.write(), r.read()]
            } else {
                seq![r.write()]
            }),
            asks(final(acts)@) == asks(old(acts)@) + r.awaited(),
            r.wf(),
    {
        acts.push(Action::Write32 { addr: addr + offset, value });
        let stage: PointerStage = if opts.pointer_write_readback {
            acts.push(Action::Read32 { addr: addr + offset });
            PointerStage::Verifying { left: READBACK_ATTEMPTS - 1 }
        } else {
            PointerStage::Done
        };
        let r: PointerWrite = PointerWrite { addr, offset, value, stage };
        assert(acts@ =~= old(acts)@ + (if opts.pointer_write_readback {
            seq![r.write(), r.read()]
        } else {
            seq![r.write()]
        }));
        assert(asks(acts@) =~= asks(old(acts)@) + r.awaited());
        r
    }

    /// Goes on reading a pointer back.
    pub fn resume(&mut self, opts: &Options, replies: &Vec<Reply>, acts: &mut Actions)
        requires
            old(self).wf(),
            old(self).stage is Verifying,
            answered(old(self).awaited(), replies@),
        ensures
            ({
                let got = word_of(replies@[0]);
                &&& *final(self) == (PointerWrite {
                    stage: old(self).next_stage(*opts, got),
                    ..*old(self)
                })
                &&& final(acts)@ == old(acts)@ + old(self).next_acts(*opts, got)
            }),
            asks(final(acts)@) == asks(old(acts)@) + final(self).awaited(),
            final(self).wf(),
    {
        assert(replies@[0] is Word);
        let got: u32 = word_in(replies, 0);
        match self.stage {
            PointerStage::Verifying { left } => {
                if opts.strict_checks && !is_ring_pointer(got) {
                    self.stage = PointerStage::Failed(Fault::RingPointer);
                } else if got == self.value {
                    self.stage = PointerStage::Done;
                } else {
                    acts.push(Action::Delay { micros: READBACK_INTERVAL_US });
                    if left == 0 {
                        acts.push(
                            Action::Log {
                                report: Report::PointerNotWritten {
                                    pointer: self.offset,
                                    value: self.value,
                                },
                            },
                        );
                        self.stage = PointerStage::Done;
                    } else {
                        acts.push(Action::Read32 { addr: self.addr + self.offset });
                        self.stage = PointerStage::Verifying { left: left - 1 };
                    }
                }
            },
            _ => {},
        }
        assert(acts@ =~= old(acts)@ + old(self).next_acts(*opts, got));
        assert(asks(acts@) =~= asks(old(acts)@) + self.awaited());
    }
}

/// The stage of a pointer write after the pointer read back as each of `gots`.
pub open spec fn read_back(opts: Options, value: u32, gots: Seq<u32>) -> PointerStage
    decreases gots.len(),
{
    if gots.len() == 0 {
        PointerStage::Verifying { left: (READBACK_ATTEMPTS - 1) as u32 }
    } else {
        let write = PointerWrite {
            addr: 0,
            offset: 0,
            value,
            stage: read_back(opts, value, gots.drop_last()),
        };
        write.next_stage(opts, gots.last())
    }
}

/// A pointer is read back until it has the value that was written, and at most
/// a fixed number of times; without strict checks that never fails.
pub proof fn law_read_back(opts: Options, value: u32, gots: Seq<u32>)
    requires
        !opts.strict_checks,
        gots.len() <= 4,
    ensures
        read_back(opts, value, gots) is Done <==> gots.len() == 4 || exists|i: int|
            0 <= i < gots.len() && #[trigger] gots[i] == value,
        !(read_back(opts, value, gots) is Failed),
        read_back(opts, value, gots) is Verifying ==> read_back(opts, value, gots)->left
            == 3 - gots.len(),
    decreases gots.len(),
{
    if gots.len() > 0 {
        let shorter = gots.drop_last();
        law_read_back(opts, value, shorter);
        assert(forall|i: int| 0 <= i < shorter.len() ==> shorter[i] == gots[i]);
        assert(gots.last() == gots[gots.len() - 1]);
        if exists|i: int| 0 <= i < shorter.len() && #[trigger] shorter[i] == value {
            let i = choose|i: int| 0 <= i < shorter.len() && #[trigger] shorter[i] == value;
            assert(gots[i] == value);
        }
    }
}

/// A pointer is read once, or twice where the options ask for it. It is what was
/// read last; with strict checks everything that was read must be a position in
/// the ring. Two words that differ are reported.
pub proof fn law_pointer_is_last_read(
    opts: Options,
    addr: u32,
    offset: u32,
    replies: Seq<Reply>,
    from: int,
)
    ensures
        ({
            let read = ActionView::Read32 { addr: (addr + offset) as u32 };
            let words = pointer_words(opts, replies, from);
            let first = word_of(replies[from]);
            let last = if opts.pointer_stable_read {
                word_of(replies[from + 1])
            } else {
                first
            };
            let inside = first < 4096 && first % 4 == 0 && last < 4096 && last % 4 == 0;
            &&& opts.pointer_stable_read ==> pointer_reads(opts, addr, offset) =~= seq![read, read]
            &&& !opts.pointer_stable_read ==> pointer_reads(opts, addr, offset) =~= seq![read]
            &&& opts.strict_checks && !inside ==> pointer_value(opts, words) == Err::<u32, Fault>(
                Fault::RingPointer,
            )
            &&& !opts.strict_checks || inside ==> pointer_value(opts, words) == Ok::<u32, Fault>(
                last,
            )
            &&& first == last ==> pointer_reports(offset, words).len() == 0
            &&& first != last ==> pointer_reports(offset, words) =~= seq![
                ActionView::Log {
                    report: Report::PointerUnstable { pointer: offset, first, second: last },
                },
            ]
        }),
{
}

/// A pointer that was written and read back as something else is read again after
/// five microseconds, as long as reads are left; a pointer that never has its value
/// is reported. With strict checks what is read back must be a position in the
/// ring.
pub proof fn law_pointer_write_checked(opts: Options, write: PointerWrite, got: u32)
    requires
        write.stage is Verifying,
    ensures
        ({
            let stage = write.next_stage(opts, got);
            let acts = write.next_acts(opts, got);
            let left = write.stage->left;
            let delay = ActionView::Delay { micros: 5 };
            if opts.strict_checks && (got >= 4096 || got % 4 != 0) {
                stage == PointerStage::Failed(Fault::RingPointer) && acts.len() == 0
            } else if got == write.value {
                stage is Done && acts.len() == 0
            } else if left > 0 {
                &&& stage == (PointerStage::Verifying { left: (left - 1) as u32 })
                &&& acts =~= seq![
                    delay,
                    ActionView::Read32 { addr: (write.addr + write.offset) as u32 },
                ]
            } else {
                &&& stage is Done
                &&& acts =~= seq![
                    delay,
                    ActionView::Log {
                        report: Report::PointerNotWritten {
                            pointer: write.offset,
                            value: write.value,
                        },
                    },
                ]
            }
        }),
        write.write() == (ActionView::Write32 {
            addr: (write.addr + write.offset) as u32,
            value: write.value,
        }),
        write.read() == (ActionView::Read32 { addr: (write.addr + write.offset) as u32 }),
{
}

} // verus!
