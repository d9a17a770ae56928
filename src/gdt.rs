//! The stack that the double-fault handler switches to.
use vstd::prelude::*;

verus! {

/// The size of the double-fault stack: five pages.
pub const STACK_SIZE: u64 = 4096 * 5;

/// The value stored in the interrupt stack table for a stack whose lowest
/// address is `stack_start`: the address just past it, since stacks grow
/// down.
pub fn stack_top(stack_start: u64) -> (r: u64)
    requires
        stack_start + STACK_SIZE <= u64::MAX,
    ensures
        r == stack_start + STACK_SIZE,
{
    stack_start + STACK_SIZE
}

} // verus!
