//! The scheduling model: what it means to interleave the update scripts
//! of two workers into one serialized order, and the theorem that no
//! interleaving loses an update — the serialized deltas always add up to
//! the sum of each worker's own deltas, so a balanced pair of scripts
//! (n increments against n decrements) cancels exactly under every
//! schedule. The executable functions replay a concrete schedule and
//! return exactly the value the theorem predicts.

use vstd::prelude::*;

verus! {

/// Sum of a script of deltas, as an unbounded integer.
pub open spec fn sum(s: Seq<i64>) -> int
    decreases s.len(),
{
    if s.len() == 0 {
        0
    } else {
        sum(s.drop_last()) + s.last()
    }
}

/// How many steps of a schedule pick the first worker.
pub open spec fn count_true(s: Seq<bool>) -> int
    decreases s.len(),
{
    if s.len() == 0 {
        0
    } else {
        count_true(s.drop_last()) + if s.last() {
            1int
        } else {
            0int
        }
    }
}

/// `c` is an interleaving of `a` and `b`: it consists of exactly the
/// elements of both scripts, each worker's elements in their original
/// order.
pub open spec fn is_interleaving(a: Seq<i64>, b: Seq<i64>, c: Seq<i64>) -> bool
    decreases c.len(),
{
    if c.len() == 0 {
        a.len() == 0 && b.len() == 0
    } else {
        ||| (a.len() > 0 && a.last() == c.last() && is_interleaving(
            a.drop_last(),
            b,
            c.drop_last(),
        ))
        ||| (b.len() > 0 && b.last() == c.last() && is_interleaving(
            a,
            b.drop_last(),
            c.drop_last(),
        ))
    }
}

/// The script that applies the same delta `x` at each of `n` steps.
pub open spec fn repeated(n: nat, x: i64) -> Seq<i64> {
    Seq::new(n, |i: int| x)
}

/// A schedule fits two scripts when it has one step per delta and picks
/// the first worker exactly as often as that worker has deltas.
pub open spec fn schedule_fits(s: Seq<bool>, a_len: int, b_len: int) -> bool {
    s.len() == a_len + b_len && count_true(s) == a_len
}

/// An interleaving has exactly one element per element of the two
/// scripts.
pub proof fn lemma_interleaving_len(a: Seq<i64>, b: Seq<i64>, c: Seq<i64>)
    requires
        is_interleaving(a, b, c),
    ensures
        c.len() == a.len() + b.len(),
    decreases c.len(),
{
    if c.len() == 0 {
    } else if a.len() > 0 && a.last() == c.last() && is_interleaving(
        a.drop_last(),
        b,
        c.drop_last(),
    ) {
        lemma_interleaving_len(a.drop_last(), b, c.drop_last());
    } else {
        lemma_interleaving_len(a, b.drop_last(), c.drop_last());
    }
}

/// The one serialized order of updates that a schedule dictates: each
/// `true` step contributes the first script's next delta, each `false`
/// step the second's. Meaningful when the schedule fits the scripts.
pub open spec fn merge_by(a: Seq<i64>, b: Seq<i64>, s: Seq<bool>) -> Seq<i64>
    decreases s.len(),
{
    if s.len() == 0 {
        Seq::empty()
    } else if s.last() {
        merge_by(a.drop_last(), b, s.drop_last()).push(a.last())
    } else {
        merge_by(a, b.drop_last(), s.drop_last()).push(b.last())
    }
}

/// No update is lost: the deltas of an interleaving add up to the sum of
/// each worker's own deltas, whatever the schedule was.
pub proof fn lemma_interleaving_sum(a: Seq<i64>, b: Seq<i64>, c: Seq<i64>)
    requires
        is_interleaving(a, b, c),
    ensures
        sum(c) == sum(a) + sum(b),
    decreases c.len(),
{
    if c.len() == 0 {
    } else if a.len() > 0 && a.last() == c.last() && is_interleaving(
        a.drop_last(),
        b,
        c.drop_last(),
    ) {
        lemma_interleaving_sum(a.drop_last(), b, c.drop_last());
    } else {
        lemma_interleaving_sum(a, b.drop_last(), c.drop_last());
    }
}

/// A constant script of `n` copies of `x` sums to `n * x`.
pub proof fn lemma_sum_repeated(n: nat, x: i64)
    ensures
        sum(repeated(n, x)) == n * x,
    decreases n,
{
    if n == 0 {
    } else {
        assert(repeated(n, x).drop_last() =~= repeated((n - 1) as nat, x));
        lemma_sum_repeated((n - 1) as nat, x);
        assert(n * x == (n - 1) * x + x) by (nonlinear_arith);
    }
}

/// The balanced law: any interleaving of one worker's `n` increments
/// with another worker's `n` decrements sums to zero, so a counter that
/// applies it ends exactly where it started.
pub proof fn lemma_balanced_interleaving(n: nat, c: Seq<i64>)
    requires
        is_interleaving(repeated(n, 1i64), repeated(n, -1i64), c),
    ensures
        sum(c) == 0,
{
    lemma_interleaving_sum(repeated(n, 1i64), repeated(n, -1i64), c);
    lemma_sum_repeated(n, 1i64);
    lemma_sum_repeated(n, -1i64);
}

/// Every prefix of an interleaving is itself an interleaving of a prefix
/// of each script.
pub proof fn lemma_interleaving_prefix(a: Seq<i64>, b: Seq<i64>, c: Seq<i64>, k: int)
    requires
        is_interleaving(a, b, c),
        0 <= k <= c.len(),
    ensures
        exists|i: int, j: int|
            0 <= i <= a.len() && 0 <= j <= b.len() && i + j == k && #[trigger] is_interleaving(
                a.subrange(0, i),
                b.subrange(0, j),
                c.subrange(0, k),
            ),
    decreases c.len(),
{
    if k == c.len() {
        lemma_interleaving_len(a, b, c);
        let i = a.len() as int;
        let j = b.len() as int;
        assert(a.subrange(0, i) =~= a);
        assert(b.subrange(0, j) =~= b);
        assert(c.subrange(0, k) =~= c);
        assert(is_interleaving(a.subrange(0, i), b.subrange(0, j), c.subrange(0, k)));
    } else if a.len() > 0 && a.last() == c.last() && is_interleaving(
        a.drop_last(),
        b,
        c.drop_last(),
    ) {
        lemma_interleaving_prefix(a.drop_last(), b, c.drop_last(), k);
        let (i, j) = choose|i: int, j: int|
            0 <= i <= a.drop_last().len() && 0 <= j <= b.len() && i + j == k && #[trigger] is_interleaving(
                a.drop_last().subrange(0, i),
                b.subrange(0, j),
                c.drop_last().subrange(0, k),
            );
        assert(a.drop_last().subrange(0, i) =~= a.subrange(0, i));
        assert(c.drop_last().subrange(0, k) =~= c.subrange(0, k));
        assert(is_interleaving(a.subrange(0, i), b.subrange(0, j), c.subrange(0, k)));
    } else {
        lemma_interleaving_prefix(a, b.drop_last(), c.drop_last(), k);
        let (i, j) = choose|i: int, j: int|
            0 <= i <= a.len() && 0 <= j <= b.drop_last().len() && i + j == k && #[trigger] is_interleaving(
                a.subrange(0, i),
                b.drop_last().subrange(0, j),
                c.drop_last().subrange(0, k),
            );
        assert(b.drop_last().subrange(0, j) =~= b.subrange(0, j));
        assert(c.drop_last().subrange(0, k) =~= c.subrange(0, k));
        assert(is_interleaving(a.subrange(0, i), b.subrange(0, j), c.subrange(0, k)));
    }
}

/// Along any interleaving of `n` increments and `n` decrements, the
/// running sum never strays further than `n` from where it started.
pub proof fn lemma_balanced_prefix_bound(n: nat, c: Seq<i64>, k: int)
    requires
        is_interleaving(repeated(n, 1i64), repeated(n, -1i64), c),
        0 <= k <= c.len(),
    ensures
        -(n as int) <= sum(c.subrange(0, k)) <= n as int,
{
    lemma_interleaving_prefix(repeated(n, 1i64), repeated(n, -1i64), c, k);
    let (i, j) = choose|i: int, j: int|
        0 <= i <= repeated(n, 1i64).len() && 0 <= j <= repeated(n, -1i64).len() && i + j == k
            && #[trigger] is_interleaving(
            repeated(n, 1i64).subrange(0, i),
            repeated(n, -1i64).subrange(0, j),
            c.subrange(0, k),
        );
    assert(repeated(n, 1i64).subrange(0, i) =~= repeated(i as nat, 1i64));
    assert(repeated(n, -1i64).subrange(0, j) =~= repeated(j as nat, -1i64));
    lemma_interleaving_sum(repeated(i as nat, 1i64), repeated(j as nat, -1i64), c.subrange(0, k));
    lemma_sum_repeated(i as nat, 1i64);
    lemma_sum_repeated(j as nat, -1i64);
}

/// Every running value stays representable: each prefix of the script,
/// added to the initial value, fits in the machine integer.
pub open spec fn prefixes_fit(initial: int, s: Seq<i64>) -> bool {
    forall|k: int|
        0 <= k <= s.len() ==> i64::MIN <= initial + sum(#[trigger] s.subrange(0, k)) <= i64::MAX
}

/// Replays a serialized script of deltas from `initial`. Returns the
/// exact sum when every intermediate value is representable, and `None`
/// as soon as one update would leave the machine range.
pub fn run_deltas(initial: i64, deltas: &Vec<i64>) -> (res: Option<i64>)
    ensures
        res matches Some(v) ==> v == initial + sum(deltas@),
        res is Some <==> prefixes_fit(initial as int, deltas@),
{
    let mut acc = initial;
    let mut i: usize = 0;
    while i < deltas.len()
        invariant
            0 <= i <= deltas@.len(),
            acc == initial + sum(deltas@.subrange(0, i as int)),
            forall|k: int|
                0 <= k <= i ==> i64::MIN <= initial + sum(#[trigger] deltas@.subrange(0, k))
                    <= i64::MAX,
        decreases deltas@.len() - i,
    {
        proof {
            assert(deltas@.subrange(0, i + 1).drop_last() =~= deltas@.subrange(0, i as int));
        }
        match acc.checked_add(deltas[i]) {
            Some(v) => {
                acc = v;
                i = i + 1;
            },
            None => {
                proof {
                    assert(initial + sum(deltas@.subrange(0, i + 1)) == acc + deltas@[i as int]);
                }
                return None;
            },
        }
    }
    proof {
        assert(deltas@.subrange(0, deltas@.len() as int) =~= deltas@);
    }
    Some(acc)
}

/// Serializes two workers' scripts into the single order that a schedule
/// dictates: a `true` step takes the first worker's next delta, a
/// `false` step the second's. Succeeds exactly on the schedules that fit
/// the two scripts; the result is then an interleaving of them.
pub fn merge_scripts(a: &Vec<i64>, b: &Vec<i64>, schedule: &Vec<bool>) -> (res: Option<Vec<i64>>)
    ensures
        res matches Some(c) ==> is_interleaving(a@, b@, c@) && c@ == merge_by(a@, b@, schedule@),
        res is Some <==> schedule_fits(schedule@, a@.len() as int, b@.len() as int),
{
    let mut out: Vec<i64> = Vec::new();
    let mut ia: usize = 0;
    let mut ib: usize = 0;
    let mut k: usize = 0;
    while k < schedule.len()
        invariant
            0 <= k <= schedule@.len(),
            ia <= a@.len(),
            ib <= b@.len(),
            ia + ib == k,
            ia == count_true(schedule@.subrange(0, k as int)),
            is_interleaving(a@.subrange(0, ia as int), b@.subrange(0, ib as int), out@),
            out@ == merge_by(
                a@.subrange(0, ia as int),
                b@.subrange(0, ib as int),
                schedule@.subrange(0, k as int),
            ),
        decreases schedule@.len() - k,
    {
        proof {
            assert(schedule@.subrange(0, k + 1).drop_last() =~= schedule@.subrange(0, k as int));
        }
        if schedule[k] {
            if ia == a.len() {
                proof {
                    assert(schedule@.subrange(0, schedule@.len() as int) =~= schedule@);
                    lemma_count_true_mono(schedule@, k + 1, schedule@.len() as int);
                    assert(count_true(schedule@.subrange(0, k + 1)) == a@.len() + 1);
                }
                return None;
            }
            proof {
                assert(a@.subrange(0, ia + 1).drop_last() =~= a@.subrange(0, ia as int));
                assert(a@.subrange(0, ia + 1).last() == a@[ia as int]);
            }
            let ghost prev = out@;
            out.push(a[ia]);
            proof {
                assert(out@.drop_last() =~= prev);
                assert(is_interleaving(a@.subrange(0, ia + 1), b@.subrange(0, ib as int), out@));
                assert(schedule@.subrange(0, k + 1).last() == schedule@[k as int]);
                assert(out@ =~= merge_by(
                    a@.subrange(0, ia + 1),
                    b@.subrange(0, ib as int),
                    schedule@.subrange(0, k + 1),
                ));
            }
            ia = ia + 1;
        } else {
            if ib == b.len() {
                proof {
                    assert(schedule@.subrange(0, schedule@.len() as int) =~= schedule@);
                    lemma_count_true_mono(schedule@, k + 1, schedule@.len() as int);
                    assert(count_true(schedule@.subrange(0, k + 1)) == ia as int);
                }
                return None;
            }
            proof {
                assert(b@.subrange(0, ib + 1).drop_last() =~= b@.subrange(0, ib as int));
                assert(b@.subrange(0, ib + 1).last() == b@[ib as int]);
            }
            let ghost prev = out@;
            out.push(b[ib]);
            proof {
                assert(out@.drop_last() =~= prev);
                assert(is_interleaving(a@.subrange(0, ia as int), b@.subrange(0, ib + 1), out@));
                assert(schedule@.subrange(0, k + 1).last() == schedule@[k as int]);
                assert(out@ =~= merge_by(
                    a@.subrange(0, ia as int),
                    b@.subrange(0, ib + 1),
                    schedule@.subrange(0, k + 1),
                ));
            }
            ib = ib + 1;
        }
        k = k + 1;
    }
    proof {
        assert(schedule@.subrange(0, schedule@.len() as int) =~= schedule@);
    }
    if ia == a.len() && ib == b.len() {
        proof {
            assert(a@.subrange(0, ia as int) =~= a@);
            assert(b@.subrange(0, ib as int) =~= b@);
        }
        Some(out)
    } else {
        None
    }
}

/// A schedule never picks a worker less often over a longer prefix.
proof fn lemma_count_true_mono(s: Seq<bool>, k: int, m: int)
    requires
        0 <= k <= m <= s.len(),
    ensures
        count_true(s.subrange(0, k)) <= count_true(s.subrange(0, m)) <= count_true(s.subrange(0, k))
            + (m - k),
    decreases m - k,
{
    if k < m {
        lemma_count_true_mono(s, k, m - 1);
        assert(s.subrange(0, m).drop_last() =~= s.subrange(0, m - 1));
    }
}

/// Two contending workers, one applying `+1` and one `-1`, each `n`
/// times, in the order a schedule dictates. For every schedule that fits
/// (and only those), the run succeeds, and the final value is exactly
/// `initial`: no interleaving loses an update.
pub fn contend(initial: i64, n: usize, schedule: &Vec<bool>) -> (res: Option<i64>)
    requires
        i64::MIN <= initial as int - n as int,
        initial as int + n as int <= i64::MAX,
    ensures
        res matches Some(v) ==> v == initial,
        res is Some <==> schedule_fits(schedule@, n as int, n as int),
{
    let ups = constant_script(n, 1);
    let downs = constant_script(n, -1);
    match merge_scripts(&ups, &downs, schedule) {
        None => None,
        Some(c) => {
            proof {
                lemma_balanced_interleaving(n as nat, c@);
                assert forall|k: int| 0 <= k <= c@.len() implies i64::MIN <= initial as int + sum(
                    #[trigger] c@.subrange(0, k),
                ) <= i64::MAX by {
                    lemma_balanced_prefix_bound(n as nat, c@, k);
                };
            }
            match run_deltas(initial, &c) {
                Some(v) => Some(v),
                None => {
                    proof {
                        assert(false);
                    }
                    None
                },
            }
        },
    }
}

/// The executable form of [`repeated`]: a script of `n` equal deltas.
pub fn constant_script(n: usize, x: i64) -> (res: Vec<i64>)
    ensures
        res@ == repeated(n as nat, x),
{
    let mut out: Vec<i64> = Vec::new();
    let mut i: usize = 0;
    while i < n
        invariant
            0 <= i <= n,
            out@ =~= repeated(i as nat, x),
        decreases n - i,
    {
        out.push(x);
        i = i + 1;
    }
    proof {
        assert(out@ =~= repeated(n as nat, x));
    }
    out
}

} // verus!
