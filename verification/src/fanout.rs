//! Shared-ownership fan-out: one immutable sequence of values, shared by
//! reference count between the initiator and any number of reader
//! workers. Each worker gets its own handle to the same allocation and a
//! distinct index assigned at spawn time; no handle offers any mutating
//! operation, so the sequence cannot change while workers hold it. The
//! tasks built here are plain values; the unverified demonstration layer
//! may run each on its own thread, while [`join_all`] runs them in the
//! initiator and models the fan-in that collects every worker's
//! observation.

use vstd::prelude::*;
use std::sync::Arc;

verus! {

/// A read-only, reference-counted handle to an immutable sequence.
pub struct FanOutReader<T> {
    values: Arc<Vec<T>>,
}

impl<T> View for FanOutReader<T> {
    type V = Seq<T>;

    closed spec fn view(&self) -> Seq<T> {
        self.values@
    }
}

/// One reader worker: its own shared handle and the single index it is
/// assigned to observe.
pub struct ReaderTask<T> {
    pub handle: FanOutReader<T>,
    pub index: usize,
}

impl<T> ReaderTask<T> {
    /// The assigned index falls inside the shared sequence.
    pub open spec fn wf(&self) -> bool {
        (self.index as int) < self.handle@.len()
    }
}

/// Relies on std's `Arc::clone`: the returned handle refers to the same
/// allocation as `a`, so it holds the same value; only the reference
/// count changes.
#[verifier::external_body]
fn arc_clone<T>(a: &Arc<T>) -> (r: Arc<T>)
    ensures
        r == *a,
{
    Arc::clone(a)
}

impl<T> FanOutReader<T> {
    /// Takes ownership of the values and places them behind a reference
    /// count, ready to be shared.
    pub fn new(values: Vec<T>) -> (r: Self)
        ensures
            r@ == values@,
    {
        FanOutReader { values: Arc::new(values) }
    }

    /// A new shared handle to the same sequence: the contents are the
    /// same, only the reference count grows.
    pub fn clone_handle(&self) -> (r: Self)
        ensures
            r@ == self@,
    {
        FanOutReader { values: arc_clone(&self.values) }
    }

    /// How many values the shared sequence holds.
    pub fn len(&self) -> (n: usize)
        ensures
            n == self@.len(),
    {
        self.values.len()
    }

    /// Reads the value at `index`. Shared access is read-only: no method
    /// of this type mutates the sequence.
    pub fn read(&self, index: usize) -> (v: &T)
        requires
            (index as int) < self@.len(),
        ensures
            *v == self@[index as int],
    {
        &self.values[index]
    }

    /// Creates `n` reader workers: each receives its own handle to this
    /// same sequence and a distinct index in `[0, n)`.
    pub fn spawn_readers(&self, n: usize) -> (readers: Vec<ReaderTask<T>>)
        requires
            n <= self@.len(),
        ensures
            readers@.len() == n,
            forall|k: int|
                0 <= k < n ==> (#[trigger] readers@[k]).handle@ == self@ && readers@[k].index == k
                    && readers@[k].wf(),
    {
        let mut readers: Vec<ReaderTask<T>> = Vec::new();
        let mut i: usize = 0;
        while i < n
            invariant
                0 <= i <= n,
                n <= self@.len(),
                readers@.len() == i,
                forall|k: int|
                    0 <= k < i ==> (#[trigger] readers@[k]).handle@ == self@ && readers@[k].index
                        == k && readers@[k].wf(),
            decreases n - i,
        {
            readers.push(ReaderTask { handle: self.clone_handle(), index: i });
            i = i + 1;
        }
        readers
    }
}

impl<T: Copy> ReaderTask<T> {
    /// The worker's whole body: observe the single assigned value.
    pub fn run(&self) -> (v: T)
        requires
            self.wf(),
        ensures
            v == self.handle@[self.index as int],
    {
        *self.handle.read(self.index)
    }
}

impl<T> ReaderTask<T> {
    /// The worker's body in caller-supplied form: invokes `read_fn`
    /// exactly once, with this worker's own handle and its distinct
    /// assigned index.
    pub fn run_with<R, F: Fn(&FanOutReader<T>, usize) -> R>(&self, read_fn: &F) -> (r: R)
        requires
            read_fn.requires((&self.handle, self.index)),
        ensures
            read_fn.ensures((&self.handle, self.index), r),
    {
        read_fn(&self.handle, self.index)
    }
}

/// Fan-in: runs every reader worker and collects each observation, in
/// worker order. Every worker is joined — none is abandoned — so the
/// result holds exactly one observation per spawned reader.
pub fn join_all<T: Copy>(readers: &Vec<ReaderTask<T>>) -> (out: Vec<T>)
    requires
        forall|k: int| 0 <= k < readers@.len() ==> (#[trigger] readers@[k]).wf(),
    ensures
        out@.len() == readers@.len(),
        forall|k: int|
            0 <= k < readers@.len() ==> out@[k] == (#[trigger] readers@[k]).handle@[readers@[k].index as int],
{
    let mut out: Vec<T> = Vec::new();
    let mut i: usize = 0;
    while i < readers.len()
        invariant
            0 <= i <= readers@.len(),
            out@.len() == i,
            forall|k: int| 0 <= k < readers@.len() ==> (#[trigger] readers@[k]).wf(),
            forall|k: int|
                0 <= k < i ==> out@[k] == (#[trigger] readers@[k]).handle@[readers@[k].index as int],
        decreases readers@.len() - i,
    {
        out.push(readers[i].run());
        i = i + 1;
    }
    out
}

/// The whole fan-out/fan-in round: `n` readers, each observing its
/// distinct index of the shared sequence, joined in order. The
/// observations are exactly the first `n` values, and the sequence
/// itself is unchanged — no worker can write through its handle.
pub fn fan_out<T: Copy>(reader: &FanOutReader<T>, n: usize) -> (out: Vec<T>)
    requires
        n <= reader@.len(),
    ensures
        out@ == reader@.subrange(0, n as int),
{
    let readers = reader.spawn_readers(n);
    let out = join_all(&readers);
    proof {
        assert forall|k: int| 0 <= k < n implies out@[k] == reader@[k] by {
            assert(readers@[k].handle@ == reader@ && readers@[k].index == k);
        };
        assert(out@ =~= reader@.subrange(0, n as int));
    }
    out
}

} // verus!
