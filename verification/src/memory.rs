//! A model of the memory behind the bus, for statements about what a list of
//! actions does to it.

use vstd::prelude::*;

use crate::action::ActionView;
use crate::util::{law_u32_bytes, law_u32_of_bytes, u32_bytes, u32_of};

verus! {

/// The bytes behind the bus, by address.
pub type Memory = spec_fn(int) -> u8;

/// The memory after `data` was written at `addr`.
pub open spec fn stored(mem: Memory, addr: int, data: Seq<u8>) -> Memory {
    |a: int|
        if addr <= a < addr + data.len() {
            data[a - addr]
        } else {
            mem(a)
        }
}

/// The `n` bytes at `addr`.
pub open spec fn loaded(mem: Memory, addr: int, n: nat) -> Seq<u8> {
    Seq::new(n, |i: int| mem(addr + i))
}

/// The memory after one action.
pub open spec fn performed(mem: Memory, action: ActionView) -> Memory {
    match action {
        ActionView::Write32 { addr, value } => stored(mem, addr as int, u32_bytes(value)),
        ActionView::WriteBlock { addr, data } => stored(mem, addr as int, data),
        _ => mem,
    }
}

/// The memory after a list of actions.
pub open spec fn performed_all(mem: Memory, actions: Seq<ActionView>) -> Memory
    decreases actions.len(),
{
    if actions.len() == 0 {
        mem
    } else {
        performed(performed_all(mem, actions.drop_last()), actions.last())
    }
}

/// A list of actions performed after another.
pub proof fn law_performed_in_turn(mem: Memory, a: Seq<ActionView>, b: Seq<ActionView>)
    ensures
        performed_all(mem, a + b) == performed_all(performed_all(mem, a), b),
    decreases b.len(),
{
    if b.len() == 0 {
        assert(a + b =~= a);
    } else {
        law_performed_in_turn(mem, a, b.drop_last());
        assert((a + b).drop_last() =~= a + b.drop_last());
        assert((a + b).last() == b.last());
    }
}

/// What was written is what is read.
pub proof fn law_loaded_after_stored(mem: Memory, addr: int, data: Seq<u8>)
    ensures
        loaded(stored(mem, addr, data), addr, data.len()) == data,
{
    assert(loaded(stored(mem, addr, data), addr, data.len()) =~= data);
}

/// The word at an address.
pub open spec fn word_at(mem: Memory, addr: int) -> u32 {
    u32_of(mem(addr), mem(addr + 1), mem(addr + 2), mem(addr + 3)) as u32
}

/// The bytes of the word at an address are the bytes there.
pub proof fn law_word_bytes(mem: Memory, addr: int)
    ensures
        u32_bytes(word_at(mem, addr)) == loaded(mem, addr, 4),
{
    law_u32_of_bytes(mem(addr), mem(addr + 1), mem(addr + 2), mem(addr + 3));
    assert(u32_bytes(word_at(mem, addr)) =~= loaded(mem, addr, 4));
}

/// A word that was written is the word that is read.
pub proof fn law_word_written(mem: Memory, addr: u32, value: u32)
    ensures
        word_at(performed(mem, ActionView::Write32 { addr, value }), addr as int) == value,
{
    law_u32_bytes(value);
}

/// Whether an action writes to memory.
pub open spec fn writes(action: ActionView) -> bool {
    action is Write32 || action is WriteBlock
}

/// A list of actions without a write leaves memory as it is.
pub proof fn law_memory_kept(mem: Memory, actions: Seq<ActionView>)
    requires
        forall|i: int| 0 <= i < actions.len() ==> !writes(#[trigger] actions[i]),
    ensures
        performed_all(mem, actions) == mem,
    decreases actions.len(),
{
    if actions.len() > 0 {
        law_memory_kept(mem, actions.drop_last());
        assert(!writes(actions[actions.len() - 1]));
    }
}

} // verus!
