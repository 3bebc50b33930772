//! A bounded-lifetime concurrent region: workers spawned inside a scope
//! borrow the caller-owned buffer, and the scope's closing operation
//! does not hand control back until every spawned worker has completed.
//! The guarantee is structural — the only way out of the scope is
//! [`Scope::close`], which runs down every tracked worker and reports
//! exactly as many completions as there were spawns. The workers here
//! are concurrent readers; they never write, so the buffer comes back
//! unchanged. The unverified demonstration layer runs the same workers
//! on borrowed threads; this module is the discipline it follows.

use vstd::prelude::*;

verus! {

/// What a closed scope reports: how many workers were spawned inside it
/// and how many completed before control returned. The two are always
/// equal — no worker outlives the scope.
#[derive(Clone, Copy, Debug, PartialEq, Eq, Structural)]
pub struct ScopeReport {
    pub spawned: usize,
    pub completed: usize,
}

/// A scope that owns the buffer for its duration and tracks every
/// worker spawned inside it. Created by [`Scope::new`], left only
/// through [`Scope::close`].
pub struct Scope<T> {
    buffer: Vec<T>,
    pending: Vec<usize>,
}

impl<T> View for Scope<T> {
    type V = Seq<T>;

    closed spec fn view(&self) -> Seq<T> {
        self.buffer@
    }
}

impl<T> Scope<T> {
    /// The indices the spawned workers were assigned, in spawn order.
    pub closed spec fn tasks(&self) -> Seq<usize> {
        self.pending@
    }

    /// How many workers have been spawned inside the scope.
    pub open spec fn spawned(&self) -> int {
        self.tasks().len() as int
    }

    /// Every spawned worker's assignment lies inside the buffer.
    pub open spec fn wf(&self) -> bool {
        forall|k: int| 0 <= k < self.tasks().len() ==> (#[trigger] self.tasks()[k] as int) < self@.len()
    }

    /// Opens a scope over a caller-owned buffer. No workers yet.
    pub fn new(buffer: Vec<T>) -> (s: Self)
        ensures
            s@ == buffer@,
            s.spawned() == 0,
            s.wf(),
    {
        Scope { buffer, pending: Vec::new() }
    }

    /// Spawns one reader worker inside the scope, assigned to `index`.
    /// The worker borrows the scope's buffer; it cannot outlive the
    /// scope, because only [`Scope::close`] returns control.
    pub fn spawn(&mut self, index: usize)
        requires
            old(self).wf(),
            (index as int) < old(self)@.len(),
        ensures
            final(self)@ == old(self)@,
            final(self).tasks() == old(self).tasks().push(index),
            final(self).spawned() == old(self).spawned() + 1,
            final(self).wf(),
    {
        self.pending.push(index);
    }

}

impl<T: Copy> Scope<T> {
    /// Closes the scope: every spawned worker runs to completion before
    /// control returns, and the buffer comes back to the caller exactly
    /// as it went in. Returns the buffer, each worker's observation in
    /// spawn order, and a report in which `completed` always equals
    /// `spawned`.
    pub fn close(self) -> (res: (Vec<T>, Vec<T>, ScopeReport))
        requires
            self.wf(),
        ensures
            res.0@ == self@,
            res.2.spawned == self.spawned(),
            res.2.completed == res.2.spawned,
            res.1@.len() == self.spawned(),
            forall|k: int|
                0 <= k < self.spawned() ==> res.1@[k] == self@[#[trigger] self.tasks()[k] as int],
    {
        let Scope { buffer, pending } = self;
        let mut results: Vec<T> = Vec::new();
        let mut completed: usize = 0;
        let mut i: usize = 0;
        while i < pending.len()
            invariant
                0 <= i <= pending@.len(),
                completed == i,
                results@.len() == i,
                buffer@ == self@,
                pending@ == self.tasks(),
                self.wf(),
                forall|k: int|
                    0 <= k < i ==> results@[k] == buffer@[#[trigger] pending@[k] as int],
            decreases pending@.len() - i,
        {
            let idx = pending[i];
            results.push(buffer[idx]);
            completed = completed + 1;
            i = i + 1;
        }
        let report = ScopeReport { spawned: pending.len(), completed };
        (buffer, results, report)
    }
}

/// Runs a scoped region whose body is free to spawn any workers it
/// likes through the scope object it is handed: the body receives the
/// open scope and gives it back, and the region closes it. Whatever the
/// body did, control returns only once every worker spawned inside the
/// region has completed — the report's `completed` equals its `spawned`,
/// and the buffer and observations correspond exactly to the scope the
/// body built.
pub fn with_scope<T: Copy, F: FnOnce(Scope<T>) -> Scope<T>>(buffer: Vec<T>, body: F) -> (res: (
    Vec<T>,
    Vec<T>,
    ScopeReport,
))
    requires
        forall|s: Scope<T>| s.wf() && s@ == buffer@ && s.spawned() == 0 ==> body.requires((s,)),
        forall|s0: Scope<T>, s1: Scope<T>| #[trigger] body.ensures((s0,), s1) ==> s1.wf(),
    ensures
        res.2.completed == res.2.spawned,
        exists|s0: Scope<T>, s1: Scope<T>|
            {
                &&& s0@ == buffer@
                &&& s0.spawned() == 0
                &&& #[trigger] body.ensures((s0,), s1)
                &&& res.0@ == s1@
                &&& res.2.spawned == s1.spawned()
                &&& res.1@.len() == s1.spawned()
                &&& forall|k: int|
                    0 <= k < s1.spawned() ==> res.1@[k] == s1@[#[trigger] s1.tasks()[k] as int]
            },
{
    let scope = Scope::new(buffer);
    let ghost s0 = scope;
    let scope = body(scope);
    let ghost s1 = scope;
    let res = scope.close();
    proof {
        assert(body.ensures((s0,), s1));
    }
    res
}

/// Runs a whole scoped region: opens a scope over `buffer`, spawns one
/// reader worker per index in `workers`, and closes the scope. Control
/// returns only once every worker has completed: the report's
/// `completed` equals its `spawned`, which equals the number of workers
/// requested; the buffer comes back unchanged; and the observations are
/// the buffer's values at the assigned indices, in spawn order.
pub fn with_scope_readers<T: Copy>(buffer: Vec<T>, workers: &Vec<usize>) -> (res: (
    Vec<T>,
    Vec<T>,
    ScopeReport,
))
    requires
        forall|k: int| 0 <= k < workers@.len() ==> (#[trigger] workers@[k] as int) < buffer@.len(),
    ensures
        res.0@ == buffer@,
        res.2.spawned == workers@.len(),
        res.2.completed == res.2.spawned,
        res.1@.len() == workers@.len(),
        forall|k: int|
            0 <= k < workers@.len() ==> res.1@[k] == buffer@[#[trigger] workers@[k] as int],
{
    let mut scope = Scope::new(buffer);
    let mut i: usize = 0;
    while i < workers.len()
        invariant
            0 <= i <= workers@.len(),
            scope.wf(),
            scope@ == buffer@,
            scope.spawned() == i,
            scope.tasks() =~= workers@.subrange(0, i as int),
            forall|k: int|
                0 <= k < workers@.len() ==> (#[trigger] workers@[k] as int) < buffer@.len(),
        decreases workers@.len() - i,
    {
        scope.spawn(workers[i]);
        proof {
            assert(scope.tasks() =~= workers@.subrange(0, i + 1));
        }
        i = i + 1;
    }
    proof {
        assert(scope.tasks() =~= workers@);
    }
    scope.close()
}

} // verus!
