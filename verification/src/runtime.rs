//! The shadow service's loop decisions: how many cycles to run, and after
//! each one how many are left and whether to wait before the next.

use vstd::prelude::*;

verus! {

/// The cycles a loop runs: the number asked for, or without one as many as
/// a `usize` counts.
pub fn loop_budget(iterations: Option<usize>) -> (r: usize)
    ensures
        r == match iterations {
            Some(n) => n,
            None => usize::MAX,
        },
{
    match iterations {
        Some(n) => n,
        None => usize::MAX,
    }
}

/// After a cycle: one fewer left, and a wait before the next exactly when
/// some are left.
pub fn after_cycle(remaining: usize) -> (r: (usize, bool))
    requires
        remaining > 0,
    ensures
        r.0 == remaining - 1,
        r.1 == (r.0 > 0),
{
    let left = remaining - 1;
    (left, left > 0)
}

} // verus!
