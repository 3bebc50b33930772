//! A small toolkit of shared-memory concurrency primitives: exclusive
//! ownership handoff to a worker thread, a mutex-guarded shared counter,
//! reference-counted read-only fan-out across workers, and a scope whose
//! exit blocks until every worker spawned inside it has been joined.

use vstd::prelude::*;

pub mod counter;
pub mod fanout;
pub mod handoff;
pub mod schedule;
pub mod scoped;

use crate::schedule::count_true;

verus! {

/// A worker's body terminated abnormally (it panicked) instead of
/// returning a value. `faulted` counts how many workers of the joined
/// group did so; it is always at least one.
#[derive(Clone, Copy, Debug, PartialEq, Eq, Structural)]
pub struct WorkerFault {
    pub faulted: usize,
}

/// Aggregates the join outcomes of a group of workers, one entry per
/// joined worker: `true` for a normal return, `false` for a fault. Every
/// outcome is examined — no worker is abandoned — and a single verdict
/// comes back: the number of workers joined when all of them returned
/// normally, and otherwise one aggregated [`WorkerFault`] counting
/// exactly the workers that faulted. A fault is never silently
/// swallowed: the verdict is `Ok` only when no outcome was a fault.
pub fn summarize_joins(outcomes: &Vec<bool>) -> (res: Result<usize, WorkerFault>)
    ensures
        res matches Ok(n) ==> n == outcomes@.len() && count_true(outcomes@) == outcomes@.len(),
        res matches Err(f) ==> f.faulted == outcomes@.len() - count_true(outcomes@) && f.faulted
            >= 1,
        res is Ok <==> count_true(outcomes@) == outcomes@.len(),
{
    let mut faulted: usize = 0;
    let mut i: usize = 0;
    while i < outcomes.len()
        invariant
            0 <= i <= outcomes@.len(),
            faulted <= i,
            faulted == i - count_true(outcomes@.subrange(0, i as int)),
            count_true(outcomes@.subrange(0, i as int)) <= i,
        decreases outcomes@.len() - i,
    {
        proof {
            assert(outcomes@.subrange(0, i + 1).drop_last() =~= outcomes@.subrange(0, i as int));
        }
        if !outcomes[i] {
            faulted = faulted + 1;
        }
        i = i + 1;
    }
    proof {
        assert(outcomes@.subrange(0, outcomes@.len() as int) =~= outcomes@);
    }
    if faulted == 0 {
        Ok(outcomes.len())
    } else {
        Err(WorkerFault { faulted })
    }
}

} // verus!
