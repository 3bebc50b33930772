//! Exclusive ownership handoff: move a value into a worker, run an
//! operation on it there, and hand the derived result back to the
//! initiator. The transfer is a genuine move — after the call the
//! initiator can no longer touch the moved value; Rust rejects any later
//! use of the binding at compile time. The unverified demonstration
//! layer runs the same operation on a spawned thread and maps a panic of
//! the worker to [`crate::WorkerFault`]; the computation itself is this
//! verified function.

use vstd::prelude::*;

verus! {

/// The exclusive-ownership transfer capability: one owner at a time, and
/// the source binding becomes inaccessible once the value is handed off.
pub struct OwnershipHandoff;

impl OwnershipHandoff {
    /// Consumes `value`, runs `op` on it with exclusive ownership, and
    /// returns the derived result. The result is exactly what `op`
    /// produces from `value`'s original contents.
    pub fn handoff<T, R, F: FnOnce(T) -> R>(value: T, op: F) -> (res: R)
        requires
            op.requires((value,)),
        ensures
            op.ensures((value,), res),
    {
        op(value)
    }
}

} // verus!
