//! What every histogram here shares: a total, and the bucket of a percentile.

use vstd::prelude::*;

verus! {

/// How many samples a run of buckets holds.
pub open spec fn total(counts: Seq<u32>) -> nat
    decreases counts.len(),
{
    if counts.len() == 0 {
        0
    } else {
        total(counts.drop_last()) + counts.last() as nat
    }
}

/// How many samples lie in bucket `i` or below it.
pub open spec fn up_to(counts: Seq<u32>, i: int) -> nat {
    total(counts.take(i + 1))
}

/// How many samples have to be counted to reach the `p`th percentile of `n`.
///
/// Rounded up, so that the 95th percentile of a hundred samples is the 95th of
/// them and not the 94th.
pub open spec fn quota(n: nat, p: nat) -> nat {
    (n * p + 99) / 100
}

/// The first bucket from `i` on at which at least `target` samples have been
/// counted, or the last bucket if there is none.
pub open spec fn first_reaching(counts: Seq<u32>, target: nat, i: int) -> int
    decreases counts.len() - i,
{
    if i >= counts.len() - 1 || up_to(counts, i) >= target {
        i
    } else {
        first_reaching(counts, target, i + 1)
    }
}

/// The bucket that holds the `p`th percentile.
pub open spec fn percentile_bucket(counts: Seq<u32>, p: nat) -> int {
    first_reaching(counts, quota(total(counts), p), 0)
}

/// One more sample in bucket `i`; a full bucket stays full.
pub open spec fn bumped(counts: Seq<u32>, i: int) -> Seq<u32> {
    counts.update(i, counts[i].saturating_add(1))
}

/// A histogram of `n` buckets with nothing in it.
pub open spec fn empty(n: nat) -> Seq<u32> {
    Seq::new(n, |i: int| 0u32)
}

proof fn total_of_more(counts: Seq<u32>, i: int)
    requires
        0 <= i < counts.len(),
    ensures
        total(counts.take(i + 1)) == total(counts.take(i)) + counts[i],
{
    assert(counts.take(i + 1).drop_last() =~= counts.take(i));
}

/// A prefix never holds more than a longer one.
pub proof fn up_to_is_monotone(counts: Seq<u32>, i: int, j: int)
    requires
        -1 <= i <= j < counts.len(),
    ensures
        up_to(counts, i) <= up_to(counts, j),
    decreases j - i,
{
    if i < j {
        up_to_is_monotone(counts, i, j - 1);
        total_of_more(counts, j);
    }
}

/// A percentile's bucket is in range; nothing below it reaches the quota; and it
/// reaches the quota itself unless it is the last one.
pub proof fn first_reaching_is_first(counts: Seq<u32>, target: nat, i: int)
    requires
        0 <= i < counts.len(),
    ensures
        i <= first_reaching(counts, target, i) < counts.len(),
        forall|j: int|
            i <= j < first_reaching(counts, target, i) ==> #[trigger] up_to(counts, j) < target,
        first_reaching(counts, target, i) == counts.len() - 1 || up_to(
            counts,
            first_reaching(counts, target, i),
        ) >= target,
    decreases counts.len() - i,
{
    if i >= counts.len() - 1 || up_to(counts, i) >= target {
    } else {
        first_reaching_is_first(counts, target, i + 1);
    }
}

/// At least `p` percent of the samples lie in the percentile's bucket or below
/// it, and fewer than that lie below it.
pub proof fn percentile_bucket_splits_the_samples(counts: Seq<u32>, p: nat)
    requires
        counts.len() > 0,
        total(counts) > 0,
        p <= 100,
    ensures
        0 <= percentile_bucket(counts, p) < counts.len(),
        up_to(counts, percentile_bucket(counts, p)) * 100 >= total(counts) * p,
        percentile_bucket(counts, p) > 0 ==> up_to(counts, percentile_bucket(counts, p) - 1) * 100
            < total(counts) * p,
{
    let n = total(counts);
    let b = percentile_bucket(counts, p);
    first_reaching_is_first(counts, quota(n, p), 0);
    assert(counts.take(counts.len() as int) =~= counts);
    assert(n * p <= n * 100) by (nonlinear_arith)
        requires
            p <= 100,
    ;
    assert(up_to(counts, counts.len() - 1) == n);
    if b > 0 {
        assert(up_to(counts, b - 1) < quota(n, p));
    }
}

/// A higher percentile is never in a lower bucket.
pub proof fn percentile_bucket_is_monotone(counts: Seq<u32>, p: nat, q: nat)
    requires
        counts.len() > 0,
        p <= q,
    ensures
        percentile_bucket(counts, p) <= percentile_bucket(counts, q),
{
    let n = total(counts);
    assert(n * p <= n * q) by (nonlinear_arith)
        requires
            p <= q,
    ;
    first_reaching_is_first(counts, quota(n, p), 0);
    first_reaching_is_first(counts, quota(n, q), 0);
    let a = percentile_bucket(counts, p);
    let b = percentile_bucket(counts, q);
    if b < a {
        assert(up_to(counts, b) < quota(n, p));
    }
}

/// The histogram of a run of samples, each given by its bucket.
pub open spec fn tallied(buckets: Seq<int>, n: nat) -> Seq<u32>
    decreases buckets.len(),
{
    if buckets.len() == 0 {
        empty(n)
    } else {
        bumped(tallied(buckets.drop_last(), n), buckets.last())
    }
}

/// How many samples of a run are in bucket `i` or below it.
pub open spec fn at_or_below(buckets: Seq<int>, i: int) -> nat
    decreases buckets.len(),
{
    if buckets.len() == 0 {
        0
    } else {
        at_or_below(buckets.drop_last(), i) + if buckets.last() <= i {
            1nat
        } else {
            0nat
        }
    }
}

/// The total is that of the buckets below `i` and that of the others.
pub proof fn total_splits(counts: Seq<u32>, i: int)
    requires
        0 <= i <= counts.len(),
    ensures
        total(counts) == total(counts.take(i)) + total(counts.skip(i)),
    decreases counts.len(),
{
    if i == counts.len() {
        assert(counts.take(i) =~= counts);
        assert(counts.skip(i) =~= Seq::<u32>::empty());
    } else {
        total_splits(counts.drop_last(), i);
        assert(counts.drop_last().take(i) =~= counts.take(i));
        assert(counts.drop_last().skip(i) =~= counts.skip(i).drop_last());
    }
}

/// An empty histogram holds nothing.
pub proof fn total_of_empty(n: nat)
    ensures
        total(empty(n)) == 0,
    decreases n,
{
    if n > 0 {
        assert(empty(n).drop_last() =~= empty((n - 1) as nat));
        total_of_empty((n - 1) as nat);
    }
}

/// A sample more is counted, unless its bucket is full.
pub proof fn total_after_one_more(counts: Seq<u32>, b: int)
    requires
        0 <= b < counts.len(),
    ensures
        total(bumped(counts, b)) == total(counts) + if counts[b] < u32::MAX {
            1nat
        } else {
            0nat
        },
    decreases counts.len(),
{
    let c = bumped(counts, b);
    if b == counts.len() - 1 {
        assert(c.drop_last() =~= counts.drop_last());
    } else {
        assert(c.drop_last() =~= bumped(counts.drop_last(), b));
        total_after_one_more(counts.drop_last(), b);
    }
}

/// A histogram says of every bucket exactly how many samples are in it or below
/// it, as long as no more samples were taken than a bucket can count.
pub proof fn a_histogram_counts_its_samples(buckets: Seq<int>, n: nat, i: int)
    requires
        buckets.len() <= u32::MAX,
        forall|k: int| 0 <= k < buckets.len() ==> 0 <= #[trigger] buckets[k] < n,
        -1 <= i < n,
    ensures
        tallied(buckets, n).len() == n,
        up_to(tallied(buckets, n), i) == at_or_below(buckets, i),
    decreases buckets.len(),
{
    let counts = tallied(buckets, n);
    if buckets.len() == 0 {
        total_of_empty((i + 1) as nat);
        assert(counts.take(i + 1) =~= empty((i + 1) as nat));
    } else {
        let earlier = buckets.drop_last();
        let b = buckets.last();
        assert forall|k: int| 0 <= k < earlier.len() implies 0 <= #[trigger] earlier[k] < n by {
            assert(earlier[k] == buckets[k]);
        }
        a_histogram_counts_its_samples(earlier, n, i);
        no_bucket_holds_more_than_there_are(earlier, n, b);
        let before = tallied(earlier, n);
        assert(before[b] < u32::MAX);
        if b <= i {
            assert(counts.take(i + 1) =~= bumped(before.take(i + 1), b));
            total_after_one_more(before.take(i + 1), b);
        } else {
            assert(counts.take(i + 1) =~= before.take(i + 1));
        }
    }
}

proof fn no_bucket_holds_more_than_there_are(buckets: Seq<int>, n: nat, b: int)
    requires
        buckets.len() <= u32::MAX,
        forall|k: int| 0 <= k < buckets.len() ==> 0 <= #[trigger] buckets[k] < n,
        0 <= b < n,
    ensures
        tallied(buckets, n).len() == n,
        tallied(buckets, n)[b] <= buckets.len(),
    decreases buckets.len(),
{
    if buckets.len() > 0 {
        let earlier = buckets.drop_last();
        assert forall|k: int| 0 <= k < earlier.len() implies 0 <= #[trigger] earlier[k] < n by {
            assert(earlier[k] == buckets[k]);
        }
        no_bucket_holds_more_than_there_are(earlier, n, b);
    }
}

/// A histogram holds as many samples as were taken.
pub proof fn a_histogram_holds_its_samples(buckets: Seq<int>, n: nat)
    requires
        n > 0,
        buckets.len() <= u32::MAX,
        forall|k: int| 0 <= k < buckets.len() ==> 0 <= #[trigger] buckets[k] < n,
    ensures
        tallied(buckets, n).len() == n,
        total(tallied(buckets, n)) == buckets.len(),
{
    a_histogram_counts_its_samples(buckets, n, n - 1);
    let counts = tallied(buckets, n);
    assert(counts.take(n as int) =~= counts);
    everything_is_at_or_below_the_top(buckets, n);
}

proof fn everything_is_at_or_below_the_top(buckets: Seq<int>, n: nat)
    requires
        forall|k: int| 0 <= k < buckets.len() ==> 0 <= #[trigger] buckets[k] < n,
    ensures
        at_or_below(buckets, n - 1) == buckets.len(),
    decreases buckets.len(),
{
    if buckets.len() > 0 {
        let earlier = buckets.drop_last();
        assert forall|k: int| 0 <= k < earlier.len() implies 0 <= #[trigger] earlier[k] < n by {
            assert(earlier[k] == buckets[k]);
        }
        assert(0 <= buckets[buckets.len() - 1] < n);
        everything_is_at_or_below_the_top(earlier, n);
    }
}

/// The sum of the counts.
pub fn total_of(counts: &[u32]) -> (r: u64)
    requires
        counts@.len() <= u32::MAX,
    ensures
        r == total(counts@),
{
    let mut sum: u64 = 0;
    let mut i: usize = 0;
    while i < counts.len()
        invariant
            i <= counts@.len() <= u32::MAX,
            sum == total(counts@.take(i as int)),
            sum <= i * u32::MAX,
        decreases counts@.len() - i,
    {
        proof {
            total_of_more(counts@, i as int);
            assert(i * u32::MAX + u32::MAX == (i + 1) * u32::MAX) by (nonlinear_arith);
            assert((i + 1) * u32::MAX <= u64::MAX) by (nonlinear_arith)
                requires
                    i + 1 <= u32::MAX,
            ;
        }
        sum = sum + counts[i] as u64;
        i = i + 1;
    }
    assert(counts@.take(i as int) =~= counts@);
    sum
}

/// The bucket that holds the `p`th percentile, or nothing if there are no
/// samples.
pub fn find_percentile(counts: &[u32], p: u32) -> (r: Option<usize>)
    requires
        0 < counts@.len() <= u32::MAX,
    ensures
        r is Some <==> total(counts@) > 0,
        r matches Some(i) ==> i == percentile_bucket(counts@, p as nat) && i < counts@.len(),
{
    let sum: u64 = total_of(counts);
    if sum == 0 {
        return None;
    }
    assert(0 <= sum * p + 99 <= u128::MAX) by (nonlinear_arith);
    assert(0 <= sum * p) by (nonlinear_arith);
    let target: u128 = (sum as u128 * p as u128 + 99) / 100;
    let mut seen: u128 = 0;
    let mut i: usize = 0;
    proof {
        first_reaching_is_first(counts@, target as nat, 0);
    }
    while i < counts.len()
        invariant
            i <= counts@.len() <= u32::MAX,
            0 < counts@.len(),
            seen == total(counts@.take(i as int)),
            seen <= i * u32::MAX,
            target == quota(total(counts@), p as nat),
            total(counts@) > 0,
            i < counts@.len() ==> first_reaching(counts@, target as nat, i as int)
                == percentile_bucket(counts@, p as nat),
            i == counts@.len() ==> percentile_bucket(counts@, p as nat) == counts@.len() - 1,
        decreases counts@.len() - i,
    {
        proof {
            total_of_more(counts@, i as int);
            assert(i * u32::MAX + u32::MAX == (i + 1) * u32::MAX) by (nonlinear_arith);
            assert((i + 1) * u32::MAX <= u64::MAX) by (nonlinear_arith)
                requires
                    i + 1 <= u32::MAX,
            ;
        }
        seen = seen + counts[i] as u128;
        if seen >= target {
            return Some(i);
        }
        i = i + 1;
    }
    Some(counts.len() - 1)
}

} // verus!
