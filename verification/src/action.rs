//! What the transport asks of its surroundings, and what it gets back.
//!
//! The transport itself performs no input or output. Each of its operations
//! hands out a list of [`Action`]s, which the caller performs in order; the
//! results of those that read something go back to the operation, in the same
//! order, as a list of [`Reply`]s.

use vstd::prelude::*;

use crate::packet::BtPacketBuf;
use crate::report::Report;

verus! {

/// One thing to do on behalf of the transport.
pub enum Action {
    /// Read one byte; answered by [`Reply::Byte`].
    Read8 { addr: u32 },
    /// Read a word; answered by [`Reply::Word`].
    Read32 { addr: u32 },
    /// Read `len` bytes; answered by [`Reply::Block`].
    ReadBlock { addr: u32, len: usize },
    /// Write a word.
    Write32 { addr: u32, value: u32 },
    /// Write bytes.
    WriteBlock { addr: u32, data: Vec<u8> },
    /// Wait.
    Delay { micros: u64 },
    /// Let other tasks run.
    Yield,
    /// Look at the oldest packet that waits to be sent; answered by
    /// [`Reply::Packet`].
    TakeTx,
    /// Drop the packet that was looked at.
    ReleaseTx,
    /// Wait until there is room for a received packet.
    ReserveRx,
    /// Hand over a received packet.
    SubmitRx { data: Vec<u8> },
    /// Emit a diagnostic.
    Log { report: Report },
}

/// The result of an action that reads something.
pub enum Reply {
    Byte(u8),
    Word(u32),
    Block(Vec<u8>),
    Packet(BtPacketBuf),
}

/// An action with its data as a sequence.
pub enum ActionView {
    Read8 { addr: u32 },
    Read32 { addr: u32 },
    ReadBlock { addr: u32, len: usize },
    Write32 { addr: u32, value: u32 },
    WriteBlock { addr: u32, data: Seq<u8> },
    Delay { micros: u64 },
    Yield,
    TakeTx,
    ReleaseTx,
    ReserveRx,
    SubmitRx { data: Seq<u8> },
    Log { report: Report },
}

impl View for Action {
    type V = ActionView;

    open spec fn view(&self) -> ActionView {
        match self {
            Action::Read8 { addr } => ActionView::Read8 { addr: *addr },
            Action::Read32 { addr } => ActionView::Read32 { addr: *addr },
            Action::ReadBlock { addr, len } => ActionView::ReadBlock { addr: *addr, len: *len },
            Action::Write32 { addr, value } => ActionView::Write32 { addr: *addr, value: *value },
            Action::WriteBlock { addr, data } => ActionView::WriteBlock { addr: *addr, data: data@ },
            Action::Delay { micros } => ActionView::Delay { micros: *micros },
            Action::Yield => ActionView::Yield,
            Action::TakeTx => ActionView::TakeTx,
            Action::ReleaseTx => ActionView::ReleaseTx,
            Action::ReserveRx => ActionView::ReserveRx,
            Action::SubmitRx { data } => ActionView::SubmitRx { data: data@ },
            Action::Log { report } => ActionView::Log { report: *report },
        }
    }
}

/// The shape of one awaited reply.
pub enum Ask {
    Byte,
    Word,
    Block(nat),
    Packet,
}

/// The reply that an action is answered by, if it is answered at all.
pub open spec fn ask(action: ActionView) -> Option<Ask> {
    match action {
        ActionView::Read8 { .. } => Some(Ask::Byte),
        ActionView::Read32 { .. } => Some(Ask::Word),
        ActionView::ReadBlock { addr, len } => Some(Ask::Block(len as nat)),
        ActionView::TakeTx => Some(Ask::Packet),
        _ => None,
    }
}

/// The replies that a list of actions is answered by.
pub open spec fn asks(actions: Seq<ActionView>) -> Seq<Ask>
    decreases actions.len(),
{
    if actions.len() == 0 {
        seq![]
    } else {
        let before = asks(actions.drop_last());
        match ask(actions.last()) {
            Some(a) => before.push(a),
            None => before,
        }
    }
}

/// Whether a reply has the awaited shape.
pub open spec fn fits(a: Ask, reply: Reply) -> bool {
    match a {
        Ask::Byte => reply is Byte,
        Ask::Word => reply is Word,
        Ask::Block(n) => reply matches Reply::Block(b) && b@.len() == n,
        Ask::Packet => reply matches Reply::Packet(p) && p.wf(),
    }
}

/// Whether `replies` are the awaited ones, in order.
pub open spec fn answered(awaited: Seq<Ask>, replies: Seq<Reply>) -> bool {
    &&& awaited.len() == replies.len()
    &&& forall|i: int| #![trigger replies[i]] 0 <= i < replies.len() ==> fits(awaited[i], replies[i])
}

/// The replies to two lists of actions, one after the other.
pub proof fn law_asks_of_concatenation(a: Seq<ActionView>, b: Seq<ActionView>)
    ensures
        asks(a + b) == asks(a) + asks(b),
    decreases b.len(),
{
    if b.len() == 0 {
        assert(a + b =~= a);
        assert(asks(a) + asks(b) =~= asks(a));
    } else {
        law_asks_of_concatenation(a, b.drop_last());
        assert((a + b).drop_last() =~= a + b.drop_last());
        assert((a + b).last() == b.last());
        assert(asks(a + b) =~= asks(a) + asks(b));
    }
}

/// A list of actions.
pub struct Actions {
    pub list: Vec<Action>,
}

impl View for Actions {
    type V = Seq<ActionView>;

    open spec fn view(&self) -> Seq<ActionView> {
        Seq::new(self.list@.len(), |i: int| self.list@[i]@)
    }
}

impl Actions {
    /// The empty list.
    pub fn new() -> (actions: Self)
        ensures
            actions@ == Seq::<ActionView>::empty(),
            asks(actions@) == Seq::<Ask>::empty(),
    {
        let actions: Actions = Actions { list: Vec::new() };
        assert(actions@ =~= Seq::<ActionView>::empty());
        actions
    }

    /// Adds an action at the end.
    pub fn push(&mut self, action: Action)
        ensures
            final(self)@ == old(self)@.push(action@),
            asks(final(self)@) == (match ask(action@) {
                Some(a) => asks(old(self)@).push(a),
                None => asks(old(self)@),
            }),
    {
        self.list.push(action);
        assert(self@ =~= old(self)@.push(action@));
        assert(self@.drop_last() =~= old(self)@);
    }
}

/// An action, if `wanted`.
pub open spec fn optional(wanted: bool, action: ActionView) -> Seq<ActionView> {
    if wanted {
        seq![action]
    } else {
        seq![]
    }
}

/// The report, if there is one.
pub open spec fn logged(report: Option<Report>) -> Seq<ActionView> {
    match report {
        Some(report) => seq![ActionView::Log { report }],
        None => seq![],
    }
}

/// The byte in a reply.
pub fn byte_in(replies: &Vec<Reply>, i: usize) -> (b: u8)
    requires
        i < replies@.len(),
        replies@[i as int] is Byte,
    ensures
        replies@[i as int] == Reply::Byte(b),
{
    match &replies[i] {
        Reply::Byte(b) => *b,
        _ => 0,
    }
}

/// The word in a reply.
pub fn word_in(replies: &Vec<Reply>, i: usize) -> (w: u32)
    requires
        i < replies@.len(),
        replies@[i as int] is Word,
    ensures
        replies@[i as int] == Reply::Word(w),
{
    match &replies[i] {
        Reply::Word(w) => *w,
        _ => 0,
    }
}

/// The bytes in a reply.
pub open spec fn block_of(reply: Reply) -> Seq<u8> {
    reply->Block_0@
}

/// The byte in a reply.
pub open spec fn byte_of(reply: Reply) -> u8 {
    reply->Byte_0
}

/// The word in a reply.
pub open spec fn word_of(reply: Reply) -> u32 {
    reply->Word_0
}

/// The words in a list of replies.
pub open spec fn words_of(replies: Seq<Reply>) -> Seq<u32> {
    Seq::new(replies.len(), |i: int| word_of(replies[i]))
}

/// The packet in a reply.
pub fn packet_in(replies: &Vec<Reply>, i: usize) -> (p: BtPacketBuf)
    requires
        i < replies@.len(),
        replies@[i as int] is Packet,
    ensures
        replies@[i as int] == Reply::Packet(p),
{
    match &replies[i] {
        Reply::Packet(p) => *p,
        _ => BtPacketBuf::new(),
    }
}

} // verus!
