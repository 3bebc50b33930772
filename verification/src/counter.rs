//! A mutex-guarded shared counter. The value lives inside a verified
//! reader-writer lock and is never read or written except through a
//! scoped acquisition: the lock is taken, the value used, and the lock
//! released on every path. The lock carries the counter's invariant —
//! the stored value always equals the initial value plus the sum of a
//! ghost log of every delta applied so far, so a held lock can neither
//! lose nor duplicate an update. Because the critical sections are
//! verified never to panic, a poisoned lock state cannot arise here;
//! a fault in a worker's own code outside the lock never leaves the
//! lock held.

use vstd::prelude::*;
use vstd::rwlock::RwLock;
use vstd::rwlock::RwLockPredicate;
use crate::schedule::sum;

verus! {

/// What the lock protects: the counter's current value, together with a
/// ghost log of every delta applied since construction.
pub struct CounterCell {
    pub value: i64,
    pub log: Ghost<Seq<i64>>,
}

/// The lock invariant of a counter created with `initial`: whatever is
/// stored accounts for exactly the deltas applied so far.
pub struct CounterInv {
    pub initial: int,
}

impl RwLockPredicate<CounterCell> for CounterInv {
    open spec fn inv(self, cell: CounterCell) -> bool {
        cell.value as int == self.initial + sum(cell.log@)
    }
}

/// A shared integer counter serialized by a reader-writer lock. The
/// type is `Sync`, so any number of workers may hold references to one
/// counter and call [`SharedCounter::apply`] concurrently; the lock
/// serializes the updates.
pub struct SharedCounter {
    lock: RwLock<CounterCell, CounterInv>,
}

impl SharedCounter {
    /// The value this counter was created with.
    pub closed spec fn initial(&self) -> int {
        self.lock.pred().initial
    }

    /// Creates a counter holding `initial`, with an empty ghost log.
    pub fn new(initial: i64) -> (c: Self)
        ensures
            c.initial() == initial,
    {
        let cell = CounterCell { value: initial, log: Ghost(Seq::empty()) };
        let lock = RwLock::new(cell, Ghost(CounterInv { initial: initial as int }));
        SharedCounter { lock }
    }

    /// Acquires the lock, adds `delta` to the stored value, and releases
    /// the lock — on every path. Returns the value observed before the
    /// update and the value stored after it: exactly `delta` apart when
    /// the sum is representable, and unchanged otherwise (the update is
    /// then refused rather than wrapped, and the returned pair reports
    /// it).
    pub fn apply(&self, delta: i64) -> (r: (i64, i64))
        ensures
            i64::MIN <= r.0 + delta <= i64::MAX ==> r.1 == r.0 + delta,
            !(i64::MIN <= r.0 + delta <= i64::MAX) ==> r.1 == r.0,
    {
        let (cell, write_handle) = self.lock.acquire_write();
        let before = cell.value;
        match before.checked_add(delta) {
            Some(after) => {
                let ghost new_log = cell.log@.push(delta);
                proof {
                    assert(new_log.drop_last() =~= cell.log@);
                }
                write_handle.release_write(CounterCell { value: after, log: Ghost(new_log) });
                (before, after)
            },
            None => {
                write_handle.release_write(cell);
                (before, before)
            },
        }
    }

    /// Acquires the lock, reads the stored value, and releases the
    /// lock. Returns the value together with the ghost log it was read
    /// under: the value is exactly the initial value plus the sum of the
    /// deltas actually applied up to the read. A caller who knows how
    /// that log was produced can conclude more — when it interleaves `n`
    /// increments with `n` decrements, [`lemma_balanced_counter`] gives
    /// the value back as exactly the initial one.
    pub fn snapshot(&self) -> (r: (i64, Ghost<Seq<i64>>))
        ensures
            r.0 as int == self.initial() + sum(r.1@),
    {
        let read_handle = self.lock.acquire_read();
        let cell = read_handle.borrow();
        let v = cell.value;
        let log: Ghost<Seq<i64>> = Ghost(cell.log@);
        read_handle.release_read();
        (v, log)
    }
}

/// The law the counter upholds: whenever a value read from a counter was
/// produced by a log of deltas — as [`SharedCounter::snapshot`] returns
/// it — and that log interleaves one worker's `n` increments with
/// another worker's `n` decrements, in whatever order the two workers'
/// updates were serialized, the value is exactly the initial one. No
/// update is lost or duplicated under any scheduling.
pub proof fn lemma_balanced_counter(initial: int, value: i64, log: Seq<i64>, n: nat)
    requires
        value as int == initial + sum(log),
        crate::schedule::is_interleaving(
            crate::schedule::repeated(n, 1i64),
            crate::schedule::repeated(n, -1i64),
            log,
        ),
    ensures
        value as int == initial,
{
    crate::schedule::lemma_balanced_interleaving(n, log);
}

/// The race this library exists to prevent, kept deliberately inert: two
/// workers incrementing and decrementing one unsynchronized integer may
/// interleave their read-modify-write steps and lose updates, so the
/// final value need not be the initial one. [`SharedCounter`] serializes
/// the same workload behind its lock, and [`crate::schedule::contend`]
/// shows that the serialized form returns exactly the initial value
/// under every schedule. This function therefore performs no work.
pub fn data_race_attempt() {
}

} // verus!
