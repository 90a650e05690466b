//! The distribution of the sync error.
//!
//! A mean would hide exactly what matters: a clock that is right on average and
//! wrong once a second still tears a wave once a second. So the figures kept are
//! histograms, in fixed memory, and the figures reported are percentiles.
//!
//! Jitter is kept twice, over every sample and over those that pass the
//! round-trip filter, so that what the filter earns can be compared with what it
//! rejects.

use vstd::prelude::*;

use crate::modular::distance;
use crate::modular::distance_between;
use crate::modular::larger;
use crate::modular::larger_of;
use crate::modular::quotient_towards_zero;
use crate::order::median;
use crate::order::median_of;
use crate::tally::bumped;
use crate::tally::empty;
use crate::tally::find_percentile;
use crate::tally::percentile_bucket;
use crate::tally::total;

verus! {

/// Below two milliseconds: buckets of 25 microseconds.
pub const FINE_US: i64 = 25;

pub const FINE_LIMIT_US: i64 = 2_000;

pub const FINE_BUCKETS: usize = 80;

/// Above it: buckets of 500 microseconds out to sixty milliseconds.
pub const COARSE_US: i64 = 500;

pub const COARSE_BUCKETS: usize = 116;

pub const BUCKETS: usize = 196;

/// A sample is kept if its round trip is at most this multiple of the shortest
/// one seen so far.
pub const RTT_TOLERANCE_NUM: i64 = 3;

pub const RTT_TOLERANCE_DEN: i64 = 2;

/// The lengths of window that are compared.
pub const BURSTS: [usize; 3] = [8, 32, 128];

/// The longest window.
pub const MAX_BURST: usize = 128;

/// A 95th percentile below this, in microseconds, meets the criterion.
pub const CRITERION_US: i64 = 500;

pub type Histogram = [u32; BUCKETS];

/// Which bucket a value in microseconds falls in.
pub open spec fn bucket(value: int) -> int {
    if value <= 0 {
        0
    } else if value < FINE_LIMIT_US {
        value / FINE_US as int
    } else if value < FINE_LIMIT_US + COARSE_BUCKETS * COARSE_US {
        FINE_BUCKETS + (value - FINE_LIMIT_US) / COARSE_US as int
    } else {
        BUCKETS - 1
    }
}

/// The upper edge of a bucket, in microseconds.
pub open spec fn edge(index: int) -> int {
    if index < FINE_BUCKETS {
        (index + 1) * FINE_US
    } else {
        FINE_LIMIT_US + (index - FINE_BUCKETS + 1) * COARSE_US
    }
}

/// The upper edge of the bucket that holds the `p`th percentile, or -1 if the
/// histogram holds nothing.
pub open spec fn percentile_edge(counts: Seq<u32>, p: nat) -> int {
    if total(counts) == 0 {
        -1
    } else {
        edge(percentile_bucket(counts, p))
    }
}

/// A histogram after one more value.
pub open spec fn with_value(counts: Seq<u32>, value: i64) -> Seq<u32> {
    bumped(counts, bucket(value as int))
}

/// One estimator of the offset: the quickest exchange and the median of each
/// window, and how much consecutive windows disagree.
#[verifier::ext_equal]
pub struct BurstView {
    /// How far the quickest exchange of a window is from that of the one before.
    pub jitter: Seq<u32>,
    /// What is left of that once a constant rate is removed.
    pub residual: Seq<u32>,
    /// How far the median of a window is from that of the one before.
    pub jitter_median: Seq<u32>,
    /// The offsets of the window that is being gathered.
    pub window: Seq<i64>,
    /// Round trip and offset of the quickest exchange in that window.
    pub pending: Option<(i64, i64)>,
    pub last_median: Option<i64>,
    pub last: Option<i64>,
    pub previous: Option<i64>,
    /// When the first window closed, and its estimate.
    pub first: Option<(u64, i64)>,
    pub windows: nat,
    pub worst: i64,
    pub worst_median: i64,
    pub worst_residual: i64,
}

impl BurstView {
    /// Nothing gathered yet.
    pub open spec fn fresh() -> BurstView {
        BurstView {
            jitter: empty(BUCKETS as nat),
            residual: empty(BUCKETS as nat),
            jitter_median: empty(BUCKETS as nat),
            window: Seq::empty(),
            pending: None,
            last_median: None,
            last: None,
            previous: None,
            first: None,
            windows: 0,
            worst: 0,
            worst_median: 0,
            worst_residual: 0,
        }
    }

    /// One more exchange in the window. The first of several equally quick ones
    /// is the one that counts.
    pub open spec fn gathered(self, rtt: i64, offset: i64) -> BurstView {
        BurstView {
            window: self.window.push(offset),
            pending: match self.pending {
                Some((best, at)) => if rtt < best {
                    Some((rtt, offset))
                } else {
                    Some((best, at))
                },
                None => Some((rtt, offset)),
            },
            ..self
        }
    }

    /// The median of the full window, compared with the one before.
    pub open spec fn median_taken(self) -> BurstView {
        let m = median(self.window);
        BurstView {
            jitter_median: match self.last_median {
                Some(before) => with_value(self.jitter_median, distance(m, before)),
                None => self.jitter_median,
            },
            worst_median: match self.last_median {
                Some(before) => larger(self.worst_median, distance(m, before)),
                None => self.worst_median,
            },
            last_median: Some(m),
            ..self
        }
    }

    /// The estimate a constant rate would have given, from the last two.
    pub open spec fn predicted(previous: i64, before: i64) -> i64 {
        2i64.wrapping_mul(previous).wrapping_sub(before)
    }

    /// The quickest exchange of the full window, compared with the ones before,
    /// and the next window begun.
    pub open spec fn best_taken(self, now: u64) -> BurstView {
        let best = self.pending.unwrap().1;
        BurstView {
            window: Seq::empty(),
            pending: None,
            windows: self.windows + 1,
            jitter: match self.last {
                Some(last) => with_value(self.jitter, distance(best, last)),
                None => self.jitter,
            },
            worst: match self.last {
                Some(last) => larger(self.worst, distance(best, last)),
                None => self.worst,
            },
            residual: match (self.last, self.previous) {
                (Some(last), Some(before)) => with_value(
                    self.residual,
                    distance(best, BurstView::predicted(last, before)),
                ),
                _ => self.residual,
            },
            worst_residual: match (self.last, self.previous) {
                (Some(last), Some(before)) => larger(
                    self.worst_residual,
                    distance(best, BurstView::predicted(last, before)),
                ),
                _ => self.worst_residual,
            },
            previous: self.last,
            last: Some(best),
            first: match self.first {
                Some(f) => Some(f),
                None => Some((now, best)),
            },
            ..self
        }
    }

    /// One exchange, with windows of `n` exchanges.
    pub open spec fn added(self, now: u64, n: nat, rtt: i64, offset: i64) -> BurstView {
        let g = self.gathered(rtt, offset);
        if g.window.len() < n {
            g
        } else {
            g.median_taken().best_taken(now)
        }
    }

    /// What holds between two exchanges, with windows of `n`.
    pub open spec fn wf(self, n: nat) -> bool {
        &&& self.jitter.len() == BUCKETS
        &&& self.residual.len() == BUCKETS
        &&& self.jitter_median.len() == BUCKETS
        &&& self.window.len() < n
        &&& self.pending is Some <==> self.window.len() > 0
        &&& self.first is Some <==> self.windows > 0
        &&& self.last is Some <==> self.windows > 0
        &&& self.last_median is Some <==> self.windows > 0
        &&& self.previous is Some <==> self.windows > 1
        &&& self.windows <= 1 ==> self.jitter == empty(BUCKETS as nat) && self.jitter_median
            == empty(BUCKETS as nat)
        &&& self.windows <= 2 ==> self.residual == empty(BUCKETS as nat)
    }
}

/// Everything that has been measured.
#[verifier::ext_equal]
pub struct SamplesView {
    /// Round trips, over everything.
    pub rtt: Seq<u32>,
    /// How far each offset is from the one before, over everything.
    pub jitter_all: Seq<u32>,
    /// The same over the samples the filter kept.
    pub jitter_kept: Seq<u32>,
    /// One estimator for each length in `BURSTS`.
    pub best: Seq<BurstView>,
    pub min_rtt: i64,
    pub last_offset_all: Option<i64>,
    pub last_offset_kept: Option<i64>,
    pub total: nat,
    pub kept: nat,
    pub worst_all: i64,
    pub worst_kept: i64,
}

/// Whether a round trip passes the filter, given the shortest one so far.
pub open spec fn passes(rtt: i64, min_rtt: i64) -> bool {
    rtt.wrapping_mul(RTT_TOLERANCE_DEN) <= min_rtt.wrapping_mul(RTT_TOLERANCE_NUM)
}

/// Whether a round trip passes the filter, in whole numbers.
pub proof fn passes_is_one_and_a_half_times(rtt: i64, min_rtt: i64)
    requires
        -(i64::MAX / 3) <= min_rtt <= i64::MAX / 3,
        -(i64::MAX / 3) <= rtt <= i64::MAX / 3,
    ensures
        passes(rtt, min_rtt) <==> 2 * rtt <= 3 * min_rtt,
{
    crate::modular::product_is_exact(rtt, RTT_TOLERANCE_DEN);
    crate::modular::product_is_exact(min_rtt, RTT_TOLERANCE_NUM);
}

impl SamplesView {
    pub open spec fn fresh() -> SamplesView {
        SamplesView {
            rtt: empty(BUCKETS as nat),
            jitter_all: empty(BUCKETS as nat),
            jitter_kept: empty(BUCKETS as nat),
            best: seq![BurstView::fresh(), BurstView::fresh(), BurstView::fresh()],
            min_rtt: i64::MAX,
            last_offset_all: None,
            last_offset_kept: None,
            total: 0,
            kept: 0,
            worst_all: 0,
            worst_kept: 0,
        }
    }

    /// The part of a sample that does not depend on the filter. The shortest
    /// round trip is brought up to date before anything is held against it.
    pub open spec fn noted(self, now: u64, rtt: i64, offset: i64) -> SamplesView {
        SamplesView {
            total: self.total + 1,
            best: Seq::new(
                3,
                |i: int| self.best[i].added(now, BURSTS@[i] as nat, rtt, offset),
            ),
            min_rtt: if rtt < self.min_rtt {
                rtt
            } else {
                self.min_rtt
            },
            rtt: with_value(self.rtt, rtt),
            jitter_all: match self.last_offset_all {
                Some(before) => with_value(self.jitter_all, distance(offset, before)),
                None => self.jitter_all,
            },
            worst_all: match self.last_offset_all {
                Some(before) => larger(self.worst_all, distance(offset, before)),
                None => self.worst_all,
            },
            last_offset_all: Some(offset),
            ..self
        }
    }

    /// A sample that passed the filter.
    pub open spec fn retained(self, offset: i64) -> SamplesView {
        SamplesView {
            jitter_kept: match self.last_offset_kept {
                Some(before) => with_value(self.jitter_kept, distance(offset, before)),
                None => self.jitter_kept,
            },
            worst_kept: match self.last_offset_kept {
                Some(before) => larger(self.worst_kept, distance(offset, before)),
                None => self.worst_kept,
            },
            last_offset_kept: Some(offset),
            kept: self.kept + 1,
            ..self
        }
    }

    /// One exchange.
    pub open spec fn added(self, now: u64, rtt: i64, offset: i64) -> SamplesView {
        let n = self.noted(now, rtt, offset);
        if passes(rtt, n.min_rtt) {
            n.retained(offset)
        } else {
            n
        }
    }

    pub open spec fn wf(self) -> bool {
        &&& self.rtt.len() == BUCKETS
        &&& self.jitter_all.len() == BUCKETS
        &&& self.jitter_kept.len() == BUCKETS
        &&& self.best.len() == 3
        &&& forall|i: int| #![trigger self.best[i]]
            0 <= i < 3 ==> self.best[i].wf(BURSTS@[i] as nat) && self.best[i].windows <= self.total
        &&& self.kept <= self.total <= usize::MAX
        &&& self.last_offset_all is Some <==> self.total > 0
        &&& self.last_offset_kept is Some <==> self.kept > 0
    }
}

/// A bucket holds the values from the edge below it up to its own.
pub proof fn a_value_lies_under_the_edge_of_its_bucket(value: int)
    requires
        0 <= value < FINE_LIMIT_US + COARSE_BUCKETS * COARSE_US,
    ensures
        0 <= bucket(value) < BUCKETS,
        value < edge(bucket(value)),
        bucket(value) > 0 ==> edge(bucket(value) - 1) <= value,
{
    let b = bucket(value);
    if value < FINE_LIMIT_US {
        assert(b == value / 25);
    } else {
        assert(b == 80 + (value - 2000) / 500);
    }
}

/// A larger value is never in a lower bucket, and buckets are in range.
pub proof fn buckets_are_monotone(a: int, b: int)
    requires
        a <= b,
    ensures
        0 <= bucket(a) <= bucket(b) < BUCKETS,
{
}

/// The buckets of a run of values.
pub open spec fn buckets_of(values: Seq<i64>) -> Seq<int> {
    values.map_values(|v: i64| bucket(v as int))
}

/// The histogram of a run of values.
pub open spec fn histogram_of(values: Seq<i64>) -> Seq<u32> {
    crate::tally::tallied(buckets_of(values), BUCKETS as nat)
}

/// How many values of a run are less than `limit`.
pub open spec fn count_below(values: Seq<i64>, limit: int) -> nat
    decreases values.len(),
{
    if values.len() == 0 {
        0
    } else {
        count_below(values.drop_last(), limit) + if values.last() < limit {
            1nat
        } else {
            0nat
        }
    }
}

/// A histogram is built one value at a time.
pub proof fn histogram_of_one_more(values: Seq<i64>, value: i64)
    ensures
        histogram_of(Seq::empty()) == empty(BUCKETS as nat),
        histogram_of(values.push(value)) == with_value(histogram_of(values), value),
{
    assert(buckets_of(values.push(value)).drop_last() =~= buckets_of(values));
    assert(buckets_of(Seq::empty()) =~= Seq::empty());
}

proof fn below_an_edge_is_at_or_below_its_bucket(values: Seq<i64>, b: int)
    requires
        0 <= b < BUCKETS - 1,
    ensures
        count_below(values, edge(b)) == crate::tally::at_or_below(buckets_of(values), b),
    decreases values.len(),
{
    if values.len() > 0 {
        below_an_edge_is_at_or_below_its_bucket(values.drop_last(), b);
        assert(buckets_of(values).drop_last() =~= buckets_of(values.drop_last()));
        let v = values.last() as int;
        assert(buckets_of(values).last() == bucket(v));
        if v >= 0 && v < FINE_LIMIT_US + COARSE_BUCKETS * COARSE_US {
            a_value_lies_under_the_edge_of_its_bucket(v);
        }
    }
}

/// At least `p` percent of the values that made a histogram are below the
/// percentile it reports, unless they run off its end.
pub proof fn a_percentile_is_above_its_share(values: Seq<i64>, p: nat)
    requires
        0 < values.len() <= u32::MAX,
        p <= 100,
        percentile_edge(histogram_of(values), p) < edge(BUCKETS - 1),
    ensures
        count_below(values, percentile_edge(histogram_of(values), p)) * 100 >= values.len() * p,
{
    let buckets = buckets_of(values);
    let counts = histogram_of(values);
    assert forall|k: int| 0 <= k < buckets.len() implies 0 <= #[trigger] buckets[k] < BUCKETS by {
        buckets_are_monotone(values[k] as int, values[k] as int);
    }
    crate::tally::a_histogram_holds_its_samples(buckets, BUCKETS as nat);
    crate::tally::percentile_bucket_splits_the_samples(counts, p);
    let b = percentile_bucket(counts, p);
    crate::tally::a_histogram_counts_its_samples(buckets, BUCKETS as nat, b);
    below_an_edge_is_at_or_below_its_bucket(values, b);
}

/// What a run of exchanges, each a round trip and an offset, makes of an
/// estimator with windows of `n`.
pub open spec fn after_run(burst: BurstView, now: u64, n: nat, run: Seq<(i64, i64)>) -> BurstView
    decreases run.len(),
{
    if run.len() == 0 {
        burst
    } else {
        let (rtt, offset) = run.last();
        after_run(burst, now, n, run.drop_last()).added(now, n, rtt, offset)
    }
}

/// The exchange of a run with the shortest round trip; the first if several are
/// equally short.
pub open spec fn quickest(run: Seq<(i64, i64)>) -> (i64, i64)
    decreases run.len(),
{
    if run.len() <= 1 {
        run[0]
    } else if run.last().0 < quickest(run.drop_last()).0 {
        run.last()
    } else {
        quickest(run.drop_last())
    }
}

/// The quickest exchange of a run is one of its exchanges, none is quicker, and of
/// several it is the first.
pub proof fn quickest_is_quickest(run: Seq<(i64, i64)>)
    requires
        run.len() > 0,
    ensures
        run.contains(quickest(run)),
        forall|i: int| 0 <= i < run.len() ==> quickest(run).0 <= (#[trigger] run[i]).0,
        exists|k: int|
            0 <= k < run.len() && #[trigger] run[k] == quickest(run) && forall|i: int|
                0 <= i < k ==> (#[trigger] run[i]).0 > quickest(run).0,
    decreases run.len(),
{
    if run.len() > 1 {
        let earlier = run.drop_last();
        quickest_is_quickest(earlier);
        let first = choose|k: int|
            0 <= k < earlier.len() && #[trigger] earlier[k] == quickest(earlier) && forall|i: int|
                0 <= i < k ==> (#[trigger] earlier[i]).0 > quickest(earlier).0;
        if quickest(run) == quickest(earlier) {
            assert(run[first] == quickest(run));
            assert forall|i: int| 0 <= i < first implies (#[trigger] run[i]).0 > quickest(
                run,
            ).0 by {
                assert(earlier[i] == run[i]);
            }
        } else {
            assert(run[run.len() - 1] == quickest(run));
            assert forall|i: int| 0 <= i < run.len() - 1 implies (#[trigger] run[i]).0 > quickest(
                run,
            ).0 by {
                assert(earlier[i] == run[i]);
            }
        }
        let k = choose|k: int| 0 <= k < earlier.len() && earlier[k] == quickest(earlier);
        assert(run[k] == quickest(earlier));
        assert(run[run.len() - 1] == run.last());
        assert forall|i: int| 0 <= i < run.len() implies quickest(run).0 <= (#[trigger] run[i]).0 by {
            if i < run.len() - 1 {
                assert(earlier[i] == run[i]);
            }
        }
    } else {
        assert(run[0] == quickest(run));
    }
}

/// The offsets of a run of exchanges.
pub open spec fn offsets_of(run: Seq<(i64, i64)>) -> Seq<i64> {
    run.map_values(|x: (i64, i64)| x.1)
}

/// An estimator that has gathered a run of exchanges and not closed its window.
pub open spec fn gathering(burst: BurstView, run: Seq<(i64, i64)>) -> BurstView {
    BurstView { window: offsets_of(run), pending: Some(quickest(run)), ..burst }
}

proof fn a_partial_run_is_gathered(burst: BurstView, now: u64, n: nat, run: Seq<(i64, i64)>)
    requires
        burst.window.len() == 0,
        burst.pending is None,
        0 < run.len() < n,
    ensures
        after_run(burst, now, n, run) == gathering(burst, run),
    decreases run.len(),
{
    if run.len() == 1 {
        assert(after_run(burst, now, n, run.drop_last()) == burst);
        assert(burst.window.push(run.last().1) =~= offsets_of(run));
    } else {
        a_partial_run_is_gathered(burst, now, n, run.drop_last());
        let earlier = after_run(burst, now, n, run.drop_last());
        assert(earlier.window.push(run.last().1) =~= offsets_of(run));
    }
    assert(after_run(burst, now, n, run) =~= gathering(burst, run));
}

proof fn a_full_run_closes_its_window(burst: BurstView, now: u64, n: nat, run: Seq<(i64, i64)>)
    requires
        burst.window.len() == 0,
        burst.pending is None,
        n >= 2,
        run.len() == n,
    ensures
        after_run(burst, now, n, run) == gathering(burst, run).median_taken().best_taken(now),
{
    a_partial_run_is_gathered(burst, now, n, run.drop_last());
    let earlier = after_run(burst, now, n, run.drop_last());
    assert(earlier.window.push(run.last().1) =~= offsets_of(run));
    assert(earlier.gathered(run.last().0, run.last().1) =~= gathering(burst, run));
}

/// A window closes on its `n`th exchange, and what it leaves is the offset of
/// its quickest exchange and the median of its offsets.
pub proof fn a_window_takes_its_quickest_and_its_median(
    burst: BurstView,
    now: u64,
    n: nat,
    run: Seq<(i64, i64)>,
)
    requires
        burst.window.len() == 0,
        burst.pending is None,
        n >= 2,
        run.len() == n,
    ensures
        after_run(burst, now, n, run).windows == burst.windows + 1,
        after_run(burst, now, n, run).last == Some(quickest(run).1),
        after_run(burst, now, n, run).last_median == Some(median(offsets_of(run))),
        after_run(burst, now, n, run).window.len() == 0,
        after_run(burst, now, n, run).previous == burst.last,
{
    a_full_run_closes_its_window(burst, now, n, run);
}

/// What a run of exchanges, each a time, a round trip and an offset, makes of a
/// new estimator with windows of `n`.
pub open spec fn after_exchanges(n: nat, run: Seq<(u64, i64, i64)>) -> BurstView
    decreases run.len(),
{
    if run.len() == 0 {
        BurstView::fresh()
    } else {
        let (now, rtt, offset) = run.last();
        after_exchanges(n, run.drop_last()).added(now, n, rtt, offset)
    }
}

/// The round trips and offsets of a run.
pub open spec fn timeless(run: Seq<(u64, i64, i64)>) -> Seq<(i64, i64)> {
    run.map_values(|x: (u64, i64, i64)| (x.1, x.2))
}

/// How many windows of `n` a run fills.
pub open spec fn windows_in(n: nat, run: Seq<(u64, i64, i64)>) -> nat {
    run.len() / n
}

/// The exchanges of window `w`.
pub open spec fn window_of(n: nat, run: Seq<(u64, i64, i64)>, w: int) -> Seq<(i64, i64)> {
    timeless(run.subrange(w * n, w * n + n))
}

/// The exchanges behind the last full window.
pub open spec fn unfinished(n: nat, run: Seq<(u64, i64, i64)>) -> Seq<(i64, i64)> {
    timeless(run.skip((windows_in(n, run) * n) as int))
}

/// The estimate that each window leaves: the offset of its quickest exchange.
pub open spec fn estimates(n: nat, run: Seq<(u64, i64, i64)>) -> Seq<i64> {
    Seq::new(windows_in(n, run), |w: int| quickest(window_of(n, run, w)).1)
}

/// The median of each window.
pub open spec fn medians(n: nat, run: Seq<(u64, i64, i64)>) -> Seq<i64> {
    Seq::new(windows_in(n, run), |w: int| median(offsets_of(window_of(n, run, w))))
}

/// How far each of a run of values is from the one before.
pub open spec fn jitter_of(values: Seq<i64>) -> Seq<i64>
    decreases values.len(),
{
    if values.len() <= 1 {
        Seq::empty()
    } else {
        jitter_of(values.drop_last()).push(distance(values.last(), values[values.len() - 2]))
    }
}

/// How far each of a run of values is from what the two before it predict.
pub open spec fn residuals_of(values: Seq<i64>) -> Seq<i64>
    decreases values.len(),
{
    if values.len() <= 2 {
        Seq::empty()
    } else {
        residuals_of(values.drop_last()).push(
            distance(
                values.last(),
                BurstView::predicted(values[values.len() - 2], values[values.len() - 3]),
            ),
        )
    }
}

/// The largest of a run of values, or zero if none is larger.
pub open spec fn greatest(values: Seq<i64>) -> i64
    decreases values.len(),
{
    if values.len() == 0 {
        0
    } else {
        larger(greatest(values.drop_last()), values.last())
    }
}

/// The largest of a run of values is at least each of them, and is one of them
/// unless it is zero.
pub proof fn greatest_is_greatest(values: Seq<i64>)
    ensures
        greatest(values) >= 0,
        forall|i: int| 0 <= i < values.len() ==> #[trigger] values[i] <= greatest(values),
        greatest(values) == 0 || values.contains(greatest(values)),
    decreases values.len(),
{
    if values.len() > 0 {
        let earlier = values.drop_last();
        greatest_is_greatest(earlier);
        assert forall|i: int| 0 <= i < values.len() implies #[trigger] values[i] <= greatest(
            values,
        ) by {
            if i < earlier.len() {
                assert(earlier[i] == values[i]);
            }
        }
        if greatest(values) == values.last() {
            assert(values[values.len() - 1] == greatest(values));
        } else if greatest(values) != 0 {
            let k = choose|k: int| 0 <= k < earlier.len() && earlier[k] == greatest(earlier);
            assert(values[k] == greatest(values));
        }
    }
}

/// The last of a run of values, if there is one.
pub open spec fn last_of(values: Seq<i64>) -> Option<i64> {
    if values.len() == 0 {
        None
    } else {
        Some(values.last())
    }
}

/// The last but one of a run of values, if there is one.
pub open spec fn last_but_one_of(values: Seq<i64>) -> Option<i64> {
    if values.len() <= 1 {
        None
    } else {
        Some(values[values.len() - 2])
    }
}

/// What an estimator with windows of `n` holds of a run of exchanges: how much
/// consecutive windows disagree, by their quickest exchanges, by their medians
/// and once a constant rate is removed; the worst of each; and the window that is
/// not full yet.
pub open spec fn measured(n: nat, run: Seq<(u64, i64, i64)>) -> BurstView {
    let e = estimates(n, run);
    let m = medians(n, run);
    BurstView {
        jitter: histogram_of(jitter_of(e)),
        residual: histogram_of(residuals_of(e)),
        jitter_median: histogram_of(jitter_of(m)),
        window: offsets_of(unfinished(n, run)),
        pending: if unfinished(n, run).len() == 0 {
            None
        } else {
            Some(quickest(unfinished(n, run)))
        },
        last_median: last_of(m),
        last: last_of(e),
        previous: last_but_one_of(e),
        first: if e.len() == 0 {
            None
        } else {
            Some((run[n - 1].0, e[0]))
        },
        windows: windows_in(n, run),
        worst: greatest(jitter_of(e)),
        worst_median: greatest(jitter_of(m)),
        worst_residual: greatest(residuals_of(e)),
    }
}

/// A window stays what it was while the run goes on.
proof fn a_window_is_settled(n: nat, run: Seq<(u64, i64, i64)>, w: int)
    requires
        n >= 1,
        run.len() > 0,
        0 <= w < windows_in(n, run.drop_last()),
    ensures
        window_of(n, run, w) == window_of(n, run.drop_last(), w),
        0 <= w * n,
        w * n + n <= run.len() - 1,
{
    let k = run.len() - 1;
    vstd::arithmetic::div_mod::lemma_fundamental_div_mod(k as int, n as int);
    assert(0 <= w * n && w * n + n <= n * (k / n as int)) by (nonlinear_arith)
        requires
            0 <= w < k / n as int,
            n >= 1,
    ;
    assert(run.subrange(w * n, w * n + n) =~= run.drop_last().subrange(w * n, w * n + n));
}

proof fn one_more_in_the_window(n: nat, run: Seq<(u64, i64, i64)>)
    requires
        n >= 2,
        run.len() > 0,
        run.len() % n != 0,
    ensures
        windows_in(n, run) == windows_in(n, run.drop_last()),
        estimates(n, run) == estimates(n, run.drop_last()),
        medians(n, run) == medians(n, run.drop_last()),
        unfinished(n, run) == unfinished(n, run.drop_last()).push((run.last().1, run.last().2)),
        unfinished(n, run).len() < n,
{
    let earlier = run.drop_last();
    let k = run.len() as int;
    let d = n as int;
    vstd::arithmetic::div_mod::lemma_fundamental_div_mod(k, d);
    vstd::arithmetic::div_mod::lemma_fundamental_div_mod_converse(k - 1, d, k / d, k % d - 1);
    let q = windows_in(n, run);
    assert(q * n == d * (k / d)) by (nonlinear_arith)
        requires
            q == k / d,
            d == n,
    ;
    assert forall|w: int| 0 <= w < q implies window_of(n, run, w) == window_of(n, earlier, w) by {
        a_window_is_settled(n, run, w);
    }
    assert(estimates(n, run) =~= estimates(n, earlier));
    assert(medians(n, run) =~= medians(n, earlier));
    assert(unfinished(n, run) =~= unfinished(n, earlier).push((run.last().1, run.last().2)));
}

proof fn one_more_window(n: nat, run: Seq<(u64, i64, i64)>)
    requires
        n >= 2,
        run.len() > 0,
        run.len() % n == 0,
    ensures
        ({
            let earlier = run.drop_last();
            let full = unfinished(n, earlier).push((run.last().1, run.last().2));
            &&& windows_in(n, run) == windows_in(n, earlier) + 1
            &&& unfinished(n, earlier).len() == n - 1
            &&& full == window_of(n, run, windows_in(n, earlier) as int)
            &&& estimates(n, run) == estimates(n, earlier).push(quickest(full).1)
            &&& medians(n, run) == medians(n, earlier).push(median(offsets_of(full)))
            &&& unfinished(n, run).len() == 0
            &&& windows_in(n, earlier) == 0 ==> run.len() == n
        }),
{
    let earlier = run.drop_last();
    let k = run.len() as int;
    let d = n as int;
    vstd::arithmetic::div_mod::lemma_fundamental_div_mod(k, d);
    assert(k - 1 == d * (k / d - 1) + (d - 1)) by (nonlinear_arith)
        requires
            k == d * (k / d),
    ;
    vstd::arithmetic::div_mod::lemma_fundamental_div_mod_converse(k - 1, d, k / d - 1, d - 1);
    let q = windows_in(n, earlier) as int;
    assert(q == k / d - 1);
    assert(q * d == d * (k / d) - d) by (nonlinear_arith)
        requires
            q == k / d - 1,
    ;
    assert((q + 1) * d == d * (k / d)) by (nonlinear_arith)
        requires
            q == k / d - 1,
    ;
    let full = unfinished(n, earlier).push((run.last().1, run.last().2));
    assert(full =~= window_of(n, run, q));
    assert forall|w: int| 0 <= w < q implies window_of(n, run, w) == window_of(n, earlier, w) by {
        a_window_is_settled(n, run, w);
    }
    assert(estimates(n, run) =~= estimates(n, earlier).push(quickest(full).1));
    assert(medians(n, run) =~= medians(n, earlier).push(median(offsets_of(full))));
    assert(run.skip(k) =~= Seq::empty());
}

proof fn one_more_is_compared(values: Seq<i64>, v: i64)
    ensures
        last_of(values.push(v)) == Some(v),
        last_but_one_of(values.push(v)) == last_of(values),
        values.len() == 0 ==> {
            &&& jitter_of(values.push(v)) == jitter_of(values)
            &&& residuals_of(values.push(v)) == residuals_of(values)
        },
        values.len() == 1 ==> residuals_of(values.push(v)) == residuals_of(values),
        values.len() >= 1 ==> {
            let d = distance(v, values.last());
            &&& histogram_of(jitter_of(values.push(v))) == with_value(
                histogram_of(jitter_of(values)),
                d,
            )
            &&& greatest(jitter_of(values.push(v))) == larger(greatest(jitter_of(values)), d)
        },
        values.len() >= 2 ==> {
            let d = distance(v, BurstView::predicted(values.last(), values[values.len() - 2]));
            &&& histogram_of(residuals_of(values.push(v))) == with_value(
                histogram_of(residuals_of(values)),
                d,
            )
            &&& greatest(residuals_of(values.push(v))) == larger(greatest(residuals_of(values)), d)
        },
{
    let more = values.push(v);
    assert(more.drop_last() =~= values);
    if values.len() >= 1 {
        let d = distance(v, values.last());
        assert(more[more.len() - 2] == values.last());
        assert(jitter_of(more) == jitter_of(values).push(d));
        assert(jitter_of(more).drop_last() =~= jitter_of(values));
        histogram_of_one_more(jitter_of(values), d);
    }
    if values.len() >= 2 {
        let d = distance(v, BurstView::predicted(values.last(), values[values.len() - 2]));
        assert(more[more.len() - 3] == values[values.len() - 2]);
        assert(residuals_of(more) == residuals_of(values).push(d));
        assert(residuals_of(more).drop_last() =~= residuals_of(values));
        histogram_of_one_more(residuals_of(values), d);
    }
}

proof fn a_full_window_is_there(n: nat, run: Seq<(u64, i64, i64)>)
    requires
        n >= 1,
    ensures
        windows_in(n, run) > 0 ==> run.len() >= n,
{
    if run.len() < n {
        vstd::arithmetic::div_mod::lemma_basic_div(run.len() as int, n as int);
    }
}

/// However many exchanges there were, what an estimator holds is exactly what is
/// to be measured of them.
pub proof fn an_estimator_holds_what_was_measured(n: nat, run: Seq<(u64, i64, i64)>)
    requires
        n >= 2,
    ensures
        after_exchanges(n, run) == measured(n, run),
    decreases run.len(),
{
    histogram_of_one_more(Seq::empty(), 0);
    if run.len() == 0 {
        a_full_window_is_there(n, run);
        assert(windows_in(n, run) == 0);
        assert(estimates(n, run) =~= Seq::empty());
        assert(medians(n, run) =~= Seq::empty());
        assert(unfinished(n, run) =~= Seq::empty());
        assert(after_exchanges(n, run) =~= measured(n, run));
    } else {
        let earlier = run.drop_last();
        let (now, rtt, offset) = run.last();
        an_estimator_holds_what_was_measured(n, earlier);
        let before = measured(n, earlier);
        let rest = unfinished(n, earlier);
        let more = rest.push((rtt, offset));
        assert(more.drop_last() =~= rest);
        assert(before.window.push(offset) =~= offsets_of(more));
        let g = before.gathered(rtt, offset);
        assert(g.window == offsets_of(more));
        assert(g.pending == Some(quickest(more)));
        if run.len() % n != 0 {
            one_more_in_the_window(n, run);
            assert(g.window.len() < n);
            a_full_window_is_there(n, earlier);
            assert(g =~= measured(n, run));
        } else {
            one_more_window(n, run);
            assert(g.window.len() == n);
            let e = estimates(n, earlier);
            let m = medians(n, earlier);
            one_more_is_compared(e, quickest(more).1);
            one_more_is_compared(m, median(offsets_of(more)));
            let closed = g.median_taken().best_taken(now);
            assert(unfinished(n, run) =~= Seq::empty());
            assert(closed.window =~= offsets_of(unfinished(n, run)));
            a_full_window_is_there(n, earlier);
            assert(closed =~= measured(n, run));
        }
    }
}

proof fn one_fewer_is_compared(values: Seq<i64>)
    ensures
        jitter_of(values).len() == if values.len() == 0 {
            0
        } else {
            values.len() - 1
        },
        residuals_of(values).len() == if values.len() <= 1 {
            0
        } else {
            values.len() - 2
        },
    decreases values.len(),
{
    if values.len() > 0 {
        one_fewer_is_compared(values.drop_last());
    }
}

/// A distribution holds as many values as were taken.
pub proof fn a_distribution_holds_its_values(values: Seq<i64>)
    requires
        values.len() <= u32::MAX,
    ensures
        total(histogram_of(values)) == values.len(),
{
    let buckets = buckets_of(values);
    assert forall|k: int| 0 <= k < buckets.len() implies 0 <= #[trigger] buckets[k] < BUCKETS by {
        buckets_are_monotone(values[k] as int, values[k] as int);
    }
    crate::tally::a_histogram_holds_its_samples(buckets, BUCKETS as nat);
}

/// Every `n` exchanges close a window, and of so many windows all but the first
/// are compared with the one before, and all but the first two with what the two
/// before predict.
pub proof fn every_window_is_compared(n: nat, run: Seq<(u64, i64, i64)>)
    requires
        n >= 2,
        run.len() <= u32::MAX,
    ensures
        ({
            let burst = after_exchanges(n, run);
            let w = run.len() / n;
            &&& burst.windows == w
            &&& burst.window.len() == run.len() % n
            &&& total(burst.jitter) == if w == 0 {
                0
            } else {
                w - 1
            }
            &&& total(burst.jitter_median) == if w == 0 {
                0
            } else {
                w - 1
            }
            &&& total(burst.residual) == if w <= 1 {
                0
            } else {
                w - 2
            }
        }),
{
    an_estimator_holds_what_was_measured(n, run);
    let e = estimates(n, run);
    let m = medians(n, run);
    let k = run.len() as int;
    vstd::arithmetic::div_mod::lemma_fundamental_div_mod(k, n as int);
    vstd::arithmetic::div_mod::lemma_div_is_ordered_by_denominator(k, 1, n as int);
    assert(windows_in(n, run) * n == n as int * (k / n as int)) by (nonlinear_arith)
        requires
            windows_in(n, run) == k / n as int,
    ;
    one_fewer_is_compared(e);
    one_fewer_is_compared(m);
    a_distribution_holds_its_values(jitter_of(e));
    a_distribution_holds_its_values(jitter_of(m));
    a_distribution_holds_its_values(residuals_of(e));
}

/// Two estimates predict the third one exactly, if they move at a constant rate.
pub proof fn a_constant_rate_is_predicted(before: i64, last: i64, next: i64)
    requires
        next - last == last - before,
    ensures
        BurstView::predicted(last, before) == next,
{
}

proof fn no_residual(values: Seq<i64>)
    requires
        forall|i: int|
            2 <= i < values.len() ==> (#[trigger] values[i]) - values[i - 1] == values[i - 1]
                - values[i - 2],
    ensures
        forall|i: int| 0 <= i < residuals_of(values).len() ==> #[trigger] residuals_of(values)[i]
            == 0,
        greatest(residuals_of(values)) == 0,
    decreases values.len(),
{
    if values.len() > 2 {
        let earlier = values.drop_last();
        assert forall|i: int| 2 <= i < earlier.len() implies (#[trigger] earlier[i]) - earlier[i
            - 1] == earlier[i - 1] - earlier[i - 2] by {
            assert(earlier[i] == values[i]);
        }
        no_residual(earlier);
        let n = values.len() as int;
        assert(values[n - 1] - values[n - 2] == values[n - 2] - values[n - 3]);
        a_constant_rate_is_predicted(values[n - 3], values[n - 2], values[n - 1]);
        assert(residuals_of(values).drop_last() =~= residuals_of(earlier));
    }
}

/// A clock that only drifts at a constant rate leaves no residual: every window
/// is just where the two before it predict.
pub proof fn a_constant_rate_leaves_no_residual(n: nat, run: Seq<(u64, i64, i64)>)
    requires
        n >= 2,
        forall|w: int|
            2 <= w < estimates(n, run).len() ==> (#[trigger] estimates(n, run)[w]) - estimates(
                n,
                run,
            )[w - 1] == estimates(n, run)[w - 1] - estimates(n, run)[w - 2],
    ensures
        after_exchanges(n, run).worst_residual == 0,
        after_exchanges(n, run).residual == histogram_of(
            Seq::new(residuals_of(estimates(n, run)).len(), |i: int| 0i64),
        ),
{
    an_estimator_holds_what_was_measured(n, run);
    no_residual(estimates(n, run));
    assert(residuals_of(estimates(n, run)) =~= Seq::new(
        residuals_of(estimates(n, run)).len(),
        |i: int| 0i64,
    ));
}

/// What holds between two exchanges holds after the next one.
pub proof fn samples_stay_well_formed(samples: SamplesView, now: u64, rtt: i64, offset: i64)
    requires
        samples.wf(),
        samples.total < usize::MAX,
    ensures
        samples.added(now, rtt, offset).wf(),
        samples.added(now, rtt, offset).min_rtt <= rtt,
        samples.added(now, rtt, offset).kept <= samples.kept + 1,
{
    let after = samples.added(now, rtt, offset);
    assert forall|i: int| #![trigger after.best[i]] 0 <= i < 3 implies after.best[i].wf(
        BURSTS@[i] as nat,
    ) && after.best[i].windows <= after.total by {
        assert(samples.best[i].wf(BURSTS@[i] as nat));
    }
}

/// The first sample always passes the filter, whatever its round trip, and so
/// does any sample that is quicker than all before it.
pub proof fn a_quickest_sample_is_kept(samples: SamplesView, now: u64, rtt: i64, offset: i64)
    requires
        samples.wf(),
        rtt <= samples.min_rtt,
        0 <= rtt <= i64::MAX / 3,
    ensures
        samples.added(now, rtt, offset).kept == samples.kept + 1,
        samples.added(now, rtt, offset).last_offset_kept == Some(offset),
{
    passes_is_one_and_a_half_times(rtt, rtt);
}

/// What a run of samples, each a time, a round trip and an offset, comes to.
pub open spec fn after_samples(run: Seq<(u64, i64, i64)>) -> SamplesView
    decreases run.len(),
{
    if run.len() == 0 {
        SamplesView::fresh()
    } else {
        let (now, rtt, offset) = run.last();
        after_samples(run.drop_last()).added(now, rtt, offset)
    }
}

/// The round trips of a run of samples.
pub open spec fn rtts_of(run: Seq<(u64, i64, i64)>) -> Seq<i64> {
    run.map_values(|x: (u64, i64, i64)| x.1)
}

/// The offsets of the samples of a run.
pub open spec fn all_offsets(run: Seq<(u64, i64, i64)>) -> Seq<i64> {
    run.map_values(|x: (u64, i64, i64)| x.2)
}

/// The offsets of those samples that passed the filter when they were taken.
pub open spec fn kept_offsets(run: Seq<(u64, i64, i64)>) -> Seq<i64>
    decreases run.len(),
{
    if run.len() == 0 {
        Seq::empty()
    } else if passes(run.last().1, shortest(rtts_of(run))) {
        kept_offsets(run.drop_last()).push(run.last().2)
    } else {
        kept_offsets(run.drop_last())
    }
}

/// The least of a run of values, or the largest there is if there is none.
pub open spec fn shortest(values: Seq<i64>) -> i64
    decreases values.len(),
{
    if values.len() == 0 {
        i64::MAX
    } else if values.last() < shortest(values.drop_last()) {
        values.last()
    } else {
        shortest(values.drop_last())
    }
}

/// However many samples there were, what is held is the distribution of their
/// round trips, and that of how far each offset is from the one before, over all
/// of them and over those that passed the filter, with the worst of each.
pub proof fn samples_are_held_as_distributions(run: Seq<(u64, i64, i64)>)
    ensures
        ({
            let samples = after_samples(run);
            &&& samples.total == run.len()
            &&& samples.kept == kept_offsets(run).len()
            &&& samples.min_rtt == shortest(rtts_of(run))
            &&& samples.rtt == histogram_of(rtts_of(run))
            &&& samples.jitter_all == histogram_of(jitter_of(all_offsets(run)))
            &&& samples.jitter_kept == histogram_of(jitter_of(kept_offsets(run)))
            &&& samples.worst_all == greatest(jitter_of(all_offsets(run)))
            &&& samples.worst_kept == greatest(jitter_of(kept_offsets(run)))
            &&& forall|i: int|
                0 <= i < 3 ==> #[trigger] samples.best[i] == after_exchanges(BURSTS@[i] as nat, run)
            &&& samples.last_offset_all == if run.len() == 0 {
                None
            } else {
                Some(all_offsets(run).last())
            }
            &&& samples.last_offset_kept == if kept_offsets(run).len() == 0 {
                None
            } else {
                Some(kept_offsets(run).last())
            }
        }),
    decreases run.len(),
{
    histogram_of_one_more(Seq::empty(), 0);
    if run.len() == 0 {
        assert(rtts_of(run) =~= Seq::empty());
    } else {
        let earlier = run.drop_last();
        let (now, rtt, offset) = run.last();
        samples_are_held_as_distributions(earlier);
        let r = rtts_of(run);
        let o = all_offsets(run);
        assert(r.drop_last() =~= rtts_of(earlier));
        assert(r =~= rtts_of(earlier).push(rtt));
        histogram_of_one_more(rtts_of(earlier), rtt);
        assert(o =~= all_offsets(earlier).push(offset));
        one_more_is_compared(all_offsets(earlier), offset);
        one_more_is_compared(kept_offsets(earlier), offset);
    }
}

/// The three figures a distribution is reported by.
pub struct PercentilesView {
    pub p50: int,
    pub p95: int,
    pub p99: int,
}

pub open spec fn percentiles(counts: Seq<u32>) -> PercentilesView {
    PercentilesView {
        p50: percentile_edge(counts, 50),
        p95: percentile_edge(counts, 95),
        p99: percentile_edge(counts, 99),
    }
}

/// What is reported of one estimator.
pub struct BurstReportView {
    pub length: nat,
    pub best: PercentilesView,
    pub worst: i64,
    pub windows: nat,
    pub median: PercentilesView,
    pub worst_median: i64,
    pub residual: PercentilesView,
    pub worst_residual: i64,
}

impl BurstView {
    pub open spec fn report(self, length: nat) -> BurstReportView {
        BurstReportView {
            length,
            best: percentiles(self.jitter),
            worst: self.worst,
            windows: self.windows,
            median: percentiles(self.jitter_median),
            worst_median: self.worst_median,
            residual: percentiles(self.residual),
            worst_residual: self.worst_residual,
        }
    }
}

/// What is reported of everything.
#[verifier::ext_equal]
pub struct ReportView {
    pub total: nat,
    pub kept: nat,
    /// Samples kept, in whole percent.
    pub kept_percent: int,
    pub min_rtt: i64,
    pub rtt: PercentilesView,
    pub jitter_all: PercentilesView,
    pub worst_all: i64,
    pub jitter_kept: PercentilesView,
    pub worst_kept: i64,
    pub bursts: Seq<BurstReportView>,
    /// How far the estimate has moved since the first one.
    pub drift_us: i64,
    /// Whole seconds since the first estimate.
    pub seconds: int,
    /// Drift per second: parts per million.
    pub ppm: int,
    pub p95: int,
    /// Whether the criterion is met.
    pub within: bool,
}

impl SamplesView {
    /// When the estimate that drift is counted from was made, and what it was.
    pub open spec fn anchor(self, now: u64) -> (u64, i64) {
        match self.best[2].first {
            Some(first) => first,
            None => (now, 0),
        }
    }

    pub open spec fn drift_us(self, now: u64) -> i64 {
        let (_, o0) = self.anchor(now);
        match self.best[2].last {
            Some(last) => last.wrapping_sub(o0),
            None => 0,
        }
    }

    pub open spec fn seconds(self, now: u64) -> int {
        let (t0, _) = self.anchor(now);
        if now >= t0 {
            (now - t0) / 1_000_000
        } else {
            0
        }
    }

    pub open spec fn report(self, now: u64) -> ReportView {
        ReportView {
            total: self.total,
            kept: self.kept,
            kept_percent: if self.total > 0 {
                (self.kept * 100 / self.total) as int
            } else {
                0
            },
            min_rtt: self.min_rtt,
            rtt: percentiles(self.rtt),
            jitter_all: percentiles(self.jitter_all),
            worst_all: self.worst_all,
            jitter_kept: percentiles(self.jitter_kept),
            worst_kept: self.worst_kept,
            bursts: Seq::new(3, |i: int| self.best[i].report(BURSTS@[i] as nat)),
            drift_us: self.drift_us(now),
            seconds: self.seconds(now),
            ppm: if self.seconds(now) > 0 {
                quotient_towards_zero(self.drift_us(now) as int, self.seconds(now))
            } else {
                0
            },
            p95: percentile_edge(self.best[0].jitter, 95),
            within: 0 <= percentile_edge(self.best[0].jitter, 95) < CRITERION_US,
        }
    }
}

pub struct Percentiles {
    pub p50: i64,
    pub p95: i64,
    pub p99: i64,
}

impl View for Percentiles {
    type V = PercentilesView;

    open spec fn view(&self) -> PercentilesView {
        PercentilesView { p50: self.p50 as int, p95: self.p95 as int, p99: self.p99 as int }
    }
}

impl Percentiles {
    pub fn of(histogram: &Histogram) -> (r: Percentiles)
        ensures
            r@ == percentiles(histogram@),
    {
        Percentiles {
            p50: percentile(histogram, 50),
            p95: percentile(histogram, 95),
            p99: percentile(histogram, 99),
        }
    }
}

pub struct BurstReport {
    pub length: usize,
    pub best: Percentiles,
    pub worst: i64,
    pub windows: usize,
    pub median: Percentiles,
    pub worst_median: i64,
    pub residual: Percentiles,
    pub worst_residual: i64,
}

impl View for BurstReport {
    type V = BurstReportView;

    open spec fn view(&self) -> BurstReportView {
        BurstReportView {
            length: self.length as nat,
            best: self.best@,
            worst: self.worst,
            windows: self.windows as nat,
            median: self.median@,
            worst_median: self.worst_median,
            residual: self.residual@,
            worst_residual: self.worst_residual,
        }
    }
}

pub struct Report {
    pub total: usize,
    pub kept: usize,
    pub kept_percent: usize,
    pub min_rtt: i64,
    pub rtt: Percentiles,
    pub jitter_all: Percentiles,
    pub worst_all: i64,
    pub jitter_kept: Percentiles,
    pub worst_kept: i64,
    pub bursts: [BurstReport; 3],
    pub drift_us: i64,
    pub seconds: u64,
    pub ppm: i64,
    pub p95: i64,
    pub within: bool,
}

impl View for Report {
    type V = ReportView;

    open spec fn view(&self) -> ReportView {
        ReportView {
            total: self.total as nat,
            kept: self.kept as nat,
            kept_percent: self.kept_percent as int,
            min_rtt: self.min_rtt,
            rtt: self.rtt@,
            jitter_all: self.jitter_all@,
            worst_all: self.worst_all,
            jitter_kept: self.jitter_kept@,
            worst_kept: self.worst_kept,
            bursts: Seq::new(3, |i: int| self.bursts@[i]@),
            drift_us: self.drift_us,
            seconds: self.seconds as int,
            ppm: self.ppm as int,
            p95: self.p95 as int,
            within: self.within,
        }
    }
}

/// One more in the bucket of a value.
pub fn bump(histogram: &mut Histogram, value: i64)
    ensures
        final(histogram)@ == with_value(old(histogram)@, value),
{
    let i: usize = bucket_of(value);
    histogram[i] = histogram[i].saturating_add(1);
}

/// Which bucket a value in microseconds falls in.
pub fn bucket_of(value: i64) -> (r: usize)
    ensures
        r == bucket(value as int),
        r < BUCKETS,
{
    if value <= 0 {
        0
    } else if value < FINE_LIMIT_US {
        (value / FINE_US) as usize
    } else if value < FINE_LIMIT_US + COARSE_BUCKETS as i64 * COARSE_US {
        FINE_BUCKETS + ((value - FINE_LIMIT_US) / COARSE_US) as usize
    } else {
        BUCKETS - 1
    }
}

/// The upper edge of a bucket, in microseconds.
pub fn edge_of(index: usize) -> (r: i64)
    requires
        edge(index as int) <= i64::MAX,
    ensures
        r == edge(index as int),
{
    if index < FINE_BUCKETS {
        (index as i64 + 1) * FINE_US
    } else {
        FINE_LIMIT_US + ((index - FINE_BUCKETS) as i64 + 1) * COARSE_US
    }
}

/// The upper edge of the bucket that holds the `p`th percentile, or -1 if there
/// is nothing to report.
///
/// An upper edge rather than an interpolation, which would imply a confidence
/// that a histogram does not have.
pub fn percentile(histogram: &Histogram, p: u32) -> (r: i64)
    ensures
        r == percentile_edge(histogram@, p as nat),
{
    match find_percentile(histogram.as_slice(), p) {
        Some(i) => edge_of(i),
        None => -1,
    }
}

/// One estimator, in fixed memory.
pub struct Burst {
    jitter: Histogram,
    residual: Histogram,
    jitter_median: Histogram,
    window: [i64; MAX_BURST],
    worst_median: i64,
    last_median: Option<i64>,
    pending: Option<(i64, i64)>,
    count: usize,
    last: Option<i64>,
    previous: Option<i64>,
    first: Option<(u64, i64)>,
    windows: usize,
    worst: i64,
    worst_residual: i64,
}

impl View for Burst {
    type V = BurstView;

    closed spec fn view(&self) -> BurstView {
        BurstView {
            jitter: self.jitter@,
            residual: self.residual@,
            jitter_median: self.jitter_median@,
            window: self.window@.take(self.count as int),
            pending: self.pending,
            last_median: self.last_median,
            last: self.last,
            previous: self.previous,
            first: self.first,
            windows: self.windows as nat,
            worst: self.worst,
            worst_median: self.worst_median,
            worst_residual: self.worst_residual,
        }
    }
}

impl Burst {
    /// Nothing that the view does not show: the gathered offsets fit the memory.
    pub closed spec fn fits(&self) -> bool {
        self.count <= MAX_BURST
    }

    pub fn new() -> (r: Burst)
        ensures
            r@ == BurstView::fresh(),
            r.fits(),
    {
        let r = Burst {
            jitter: [0;BUCKETS],
            residual: [0;BUCKETS],
            jitter_median: [0;BUCKETS],
            window: [0;MAX_BURST],
            worst_median: 0,
            last_median: None,
            pending: None,
            count: 0,
            last: None,
            previous: None,
            first: None,
            windows: 0,
            worst: 0,
            worst_residual: 0,
        };
        assert(r@ =~= BurstView::fresh());
        r
    }

    /// One exchange, with windows of `n`.
    ///
    /// The quickest exchange and the median are taken over the same samples, so
    /// that the two are compared with each other and not with two runs of a
    /// network that changed underneath them.
    pub fn add(&mut self, now: u64, n: usize, rtt: i64, offset: i64)
        requires
            old(self).fits(),
            old(self)@.wf(n as nat),
            2 <= n <= MAX_BURST,
            old(self)@.windows < usize::MAX,
        ensures
            final(self)@ == old(self)@.added(now, n as nat, rtt, offset),
            final(self).fits(),
            final(self)@.wf(n as nat),
    {
        let ghost before = self@;
        let ghost g = before.gathered(rtt, offset);
        assert(self@.window.len() == self.count);
        let quicker: bool = match self.pending {
            Some((best, _)) => rtt < best,
            None => true,
        };
        if quicker {
            self.pending = Some((rtt, offset));
        }
        self.window[self.count] = offset;
        self.count = self.count + 1;
        assert(self@ =~= g);
        if self.count < n {
            return;
        }
        let middle: i64 = median_of(vstd::slice::slice_subrange(self.window.as_slice(), 0, n));
        assert(self.window@.subrange(0, n as int) =~= g.window);
        match self.last_median {
            Some(earlier) => {
                let jitter: i64 = distance_between(middle, earlier);
                bump(&mut self.jitter_median, jitter);
                self.worst_median = larger_of(self.worst_median, jitter);
            },
            None => {},
        }
        self.last_median = Some(middle);
        let ghost m = g.median_taken();
        assert(self@ =~= m);
        let best: i64 = match self.pending {
            Some((_, best)) => best,
            None => offset,
        };
        self.pending = None;
        self.count = 0;
        self.windows = self.windows + 1;
        match self.last {
            Some(last) => {
                let jitter: i64 = distance_between(best, last);
                bump(&mut self.jitter, jitter);
                self.worst = larger_of(self.worst, jitter);
                // Windows are equally spaced, so a constant rate taken from the
                // two before is just their second difference. It uses only what
                // a device would already have.
                match self.previous {
                    Some(earlier) => {
                        let predicted: i64 = 2i64.wrapping_mul(last).wrapping_sub(earlier);
                        let residual: i64 = distance_between(best, predicted);
                        bump(&mut self.residual, residual);
                        self.worst_residual = larger_of(self.worst_residual, residual);
                    },
                    None => {},
                }
            },
            None => {},
        }
        self.previous = self.last;
        self.last = Some(best);
        if self.first.is_none() {
            self.first = Some((now, best));
        }
        assert(self@.window =~= Seq::<i64>::empty());
        assert(self@ =~= m.best_taken(now));
    }

    pub fn report(&self, length: usize) -> (r: BurstReport)
        ensures
            r@ == self@.report(length as nat),
    {
        BurstReport {
            length,
            best: Percentiles::of(&self.jitter),
            worst: self.worst,
            windows: self.windows,
            median: Percentiles::of(&self.jitter_median),
            worst_median: self.worst_median,
            residual: Percentiles::of(&self.residual),
            worst_residual: self.worst_residual,
        }
    }
}

/// Everything that has been measured, in fixed memory.
pub struct Samples {
    rtt: Histogram,
    jitter_all: Histogram,
    jitter_kept: Histogram,
    best: [Burst; 3],
    min_rtt: i64,
    last_offset_all: Option<i64>,
    last_offset_kept: Option<i64>,
    total: usize,
    kept: usize,
    worst_all: i64,
    worst_kept: i64,
}

impl View for Samples {
    type V = SamplesView;

    closed spec fn view(&self) -> SamplesView {
        SamplesView {
            rtt: self.rtt@,
            jitter_all: self.jitter_all@,
            jitter_kept: self.jitter_kept@,
            best: Seq::new(3, |i: int| self.best@[i]@),
            min_rtt: self.min_rtt,
            last_offset_all: self.last_offset_all,
            last_offset_kept: self.last_offset_kept,
            total: self.total as nat,
            kept: self.kept as nat,
            worst_all: self.worst_all,
            worst_kept: self.worst_kept,
        }
    }
}

impl Samples {
    pub closed spec fn wf(&self) -> bool {
        &&& self@.wf()
        &&& forall|i: int| 0 <= i < 3 ==> (#[trigger] self.best@[i]).fits()
    }

    pub fn new() -> (r: Samples)
        ensures
            r@ == SamplesView::fresh(),
            r.wf(),
            r@.wf(),
    {
        let r = Samples {
            rtt: [0;BUCKETS],
            jitter_all: [0;BUCKETS],
            jitter_kept: [0;BUCKETS],
            best: [Burst::new(), Burst::new(), Burst::new()],
            min_rtt: i64::MAX,
            last_offset_all: None,
            last_offset_kept: None,
            total: 0,
            kept: 0,
            worst_all: 0,
            worst_kept: 0,
        };
        assert(r@.best =~= SamplesView::fresh().best);
        assert(r@ =~= SamplesView::fresh());
        r
    }

    /// How many samples have been taken.
    pub fn total(&self) -> (r: usize)
        ensures
            r == self@.total,
    {
        self.total
    }

    /// One exchange: its arrival, its round trip and the offset it gives.
    pub fn add(&mut self, now: u64, rtt: i64, offset: i64)
        requires
            old(self).wf(),
            old(self)@.total < usize::MAX,
        ensures
            final(self)@ == old(self)@.added(now, rtt, offset),
            final(self).wf(),
    {
        let ghost before = self@;
        self.total = self.total + 1;
        let mut i: usize = 0;
        while i < 3
            invariant
                i <= 3,
                before.wf(),
                before.total < usize::MAX,
                forall|j: int| 0 <= j < 3 ==> (#[trigger] self.best@[j]).fits(),
                forall|j: int|
                    0 <= j < i ==> (#[trigger] self.best@[j])@ == before.best[j].added(
                        now,
                        BURSTS@[j] as nat,
                        rtt,
                        offset,
                    ) && self.best@[j]@.wf(BURSTS@[j] as nat),
                forall|j: int| i <= j < 3 ==> (#[trigger] self.best@[j])@ == before.best[j],
                self@ == (SamplesView { total: before.total + 1, best: self@.best, ..before }),
            decreases 3 - i,
        {
            assert(before.best[i as int].wf(BURSTS@[i as int] as nat));
            self.best[i].add(now, BURSTS[i], rtt, offset);
            i = i + 1;
        }
        // The shortest round trip first, or the first sample would set a
        // tolerance that nothing can pass.
        if rtt < self.min_rtt {
            self.min_rtt = rtt;
        }
        bump(&mut self.rtt, rtt);
        match self.last_offset_all {
            Some(previous) => {
                let jitter: i64 = distance_between(offset, previous);
                bump(&mut self.jitter_all, jitter);
                self.worst_all = larger_of(self.worst_all, jitter);
            },
            None => {},
        }
        self.last_offset_all = Some(offset);
        let ghost n = before.noted(now, rtt, offset);
        assert(self@.best =~= n.best);
        assert(self@ =~= n);
        if rtt.wrapping_mul(RTT_TOLERANCE_DEN) > self.min_rtt.wrapping_mul(RTT_TOLERANCE_NUM) {
            return;
        }
        match self.last_offset_kept {
            Some(previous) => {
                let jitter: i64 = distance_between(offset, previous);
                bump(&mut self.jitter_kept, jitter);
                self.worst_kept = larger_of(self.worst_kept, jitter);
            },
            None => {},
        }
        self.last_offset_kept = Some(offset);
        self.kept = self.kept + 1;
        assert(self@.best =~= n.best);
        assert(self@ =~= n.retained(offset));
    }

    /// One report: the network, the clock, and whether the filter earned itself.
    pub fn report(&self, now: u64) -> (r: Report)
        requires
            self.wf(),
        ensures
            r@ == self@.report(now),
            // Nothing was compared yet, and nothing is met.
            self@.best[0].windows < 2 ==> r.p95 == -1 && !r.within,
            r.within <==> 0 <= r.p95 < 500,
    {
        proof {
            crate::tally::total_of_empty(BUCKETS as nat);
            assert(self@.best[0].wf(BURSTS@[0] as nat));
        }
        // Drift is taken from the longest window, which is the least noisy view
        // of it, and from its first estimate rather than from the first sample:
        // one bad exchange would look like a permanent offset.
        let (t0, o0): (u64, i64) = match self.best[2].first {
            Some(first) => first,
            None => (now, 0),
        };
        let last: i64 = match self.best[2].last {
            Some(last) => last,
            None => o0,
        };
        let drift_us: i64 = last.wrapping_sub(o0);
        let seconds: u64 = now.saturating_sub(t0) / 1_000_000;
        let ppm: i64 = if seconds > 0 {
            drift_us / seconds as i64
        } else {
            0
        };
        let kept_percent: usize = if self.total > 0 {
            proof {
                assert(self.kept * 100 / self.total as int <= 100) by (nonlinear_arith)
                    requires
                        self.kept <= self.total,
                        self.total > 0,
                ;
            }
            (self.kept as u128 * 100 / self.total as u128) as usize
        } else {
            0
        };
        let bursts: [BurstReport; 3] = [
            self.best[0].report(BURSTS[0]),
            self.best[1].report(BURSTS[1]),
            self.best[2].report(BURSTS[2]),
        ];
        // The criterion is held against what a device would actually use: the
        // quickest exchange of a window of the specified length.
        let p95: i64 = percentile(&self.best[0].jitter, 95);
        let r = Report {
            total: self.total,
            kept: self.kept,
            kept_percent,
            min_rtt: self.min_rtt,
            rtt: Percentiles::of(&self.rtt),
            jitter_all: Percentiles::of(&self.jitter_all),
            worst_all: self.worst_all,
            jitter_kept: Percentiles::of(&self.jitter_kept),
            worst_kept: self.worst_kept,
            bursts,
            drift_us,
            seconds,
            ppm,
            p95,
            within: 0 <= p95 && p95 < CRITERION_US,
        };
        assert(r@.bursts =~= self@.report(now).bursts);
        r
    }
}

/// An edge between two buckets: every 25 microseconds up to two milliseconds, and
/// every half of a millisecond from there up to sixty.
pub open spec fn is_edge(limit: int) -> bool {
    ||| 25 <= limit <= 2_000 && limit % 25 == 0
    ||| 2_000 < limit <= 60_000 && limit % 500 == 0
}

/// Buckets end at the edges, and lie one above the other: a value is in the first
/// one whose edge is above it, or in the last if none is.
pub proof fn buckets_end_at_the_edges(value: int, b: int)
    requires
        0 <= b < BUCKETS,
    ensures
        is_edge(edge(b)),
        b > 0 ==> edge(b - 1) < edge(b),
        edge(b) <= 60_000,
        bucket(value) <= b <==> value < edge(b) || b == BUCKETS - 1,
        0 <= bucket(value) < BUCKETS,
        BUCKETS == 196,
{
}

/// Every edge is that of a bucket.
pub proof fn every_edge_ends_a_bucket(limit: int) -> (b: int)
    requires
        is_edge(limit),
    ensures
        0 <= b < BUCKETS,
        edge(b) == limit,
{
    if limit <= 2_000 {
        limit / 25 - 1
    } else {
        79 + (limit - 2_000) / 500
    }
}

/// A percentile is at or below an edge exactly if its share of the values is below
/// that edge; and it is an edge itself. Nothing has no percentile.
pub proof fn a_percentile_is_the_first_edge_with_its_share_below(
    values: Seq<i64>,
    p: nat,
    limit: int,
)
    requires
        values.len() <= u32::MAX,
        is_edge(limit),
        limit < 60_000,
    ensures
        values.len() == 0 ==> percentile_edge(histogram_of(values), p) == -1,
        values.len() > 0 ==> is_edge(percentile_edge(histogram_of(values), p)),
        values.len() > 0 ==> (percentile_edge(histogram_of(values), p) <= limit <==> count_below(
            values,
            limit,
        ) * 100 >= values.len() * p),
{
    let buckets = buckets_of(values);
    let counts = histogram_of(values);
    a_distribution_holds_its_values(values);
    assert forall|k: int| 0 <= k < buckets.len() implies 0 <= #[trigger] buckets[k] < BUCKETS by {
        buckets_are_monotone(values[k] as int, values[k] as int);
    }
    if values.len() > 0 {
        let n = values.len();
        let target = crate::tally::quota(n, p);
        crate::tally::a_histogram_counts_its_samples(buckets, BUCKETS as nat, 0);
        crate::tally::first_reaching_is_first(counts, target, 0);
        let b = percentile_bucket(counts, p);
        buckets_end_at_the_edges(0, b);
        let j = every_edge_ends_a_bucket(limit);
        below_an_edge_is_at_or_below_its_bucket(values, j);
        crate::tally::a_histogram_counts_its_samples(buckets, BUCKETS as nat, j);
        let c = count_below(values, limit);
        assert(crate::tally::up_to(counts, j) == c);
        if b <= j {
            crate::tally::up_to_is_monotone(counts, b, j);
            assert(c >= target);
            edges_rise(b, j);
        } else {
            assert(c < target);
            edges_rise(j, b);
        }
        assert(c >= target <==> c * 100 >= n * p);
    }
}

proof fn edges_rise(a: int, b: int)
    requires
        0 <= a <= b < BUCKETS,
    ensures
        edge(a) <= edge(b),
        a < b ==> edge(a) < edge(b),
{
}

/// The criterion is held against the distribution of how much consecutive windows
/// of eight exchanges disagree: it is met exactly if its 95th percentile is there
/// and below half of a millisecond, which is if 95 percent of the differences lie
/// below the last edge under that. If more than five percent of them are half of a
/// millisecond or more, it is not met.
pub proof fn the_criterion_is_met_by_the_windows(run: Seq<(u64, i64, i64)>, now: u64)
    requires
        run.len() <= u32::MAX,
    ensures
        ({
            let differences = jitter_of(estimates(8, run));
            let report = after_samples(run).report(now);
            let n = differences.len();
            &&& report.p95 == percentile_edge(histogram_of(differences), 95)
            &&& report.within <==> 0 <= report.p95 < 500
            &&& report.within <==> n > 0 && count_below(differences, 475) * 100 >= n * 95
            &&& (n - count_below(differences, 500)) * 100 > n * 5 ==> !report.within
            &&& n == 0 ==> report.p95 == -1
        }),
{
    let differences = jitter_of(estimates(8, run));
    samples_are_held_as_distributions(run);
    an_estimator_holds_what_was_measured(8, run);
    windows_are_no_more_than_exchanges(8, run);
    assert(after_samples(run).best[0] == after_exchanges(8, run));
    a_percentile_is_the_first_edge_with_its_share_below(differences, 95, 475);
    fewer_are_below_less(differences, 475, 500);
}

proof fn windows_are_no_more_than_exchanges(n: nat, run: Seq<(u64, i64, i64)>)
    requires
        n >= 2,
    ensures
        estimates(n, run).len() <= run.len(),
        medians(n, run).len() <= run.len(),
        jitter_of(estimates(n, run)).len() <= run.len(),
        jitter_of(medians(n, run)).len() <= run.len(),
        residuals_of(estimates(n, run)).len() <= run.len(),
{
    vstd::arithmetic::div_mod::lemma_div_is_ordered_by_denominator(run.len() as int, 1, n as int);
    one_fewer_is_compared(estimates(n, run));
    one_fewer_is_compared(medians(n, run));
}

proof fn fewer_are_below_less(values: Seq<i64>, a: int, b: int)
    requires
        a <= b,
    ensures
        count_below(values, a) <= count_below(values, b) <= values.len(),
    decreases values.len(),
{
    if values.len() > 0 {
        fewer_are_below_less(values.drop_last(), a, b);
    }
}

/// Each of a run of values but the first is compared with the one before it, by how
/// far apart they are.
pub proof fn jitter_is_between_neighbours(values: Seq<i64>, i: int)
    requires
        0 <= i < values.len() - 1,
        i64::MIN < values[i + 1] - values[i] <= i64::MAX,
    ensures
        jitter_of(values).len() == values.len() - 1,
        jitter_of(values)[i] == if values[i + 1] >= values[i] {
            values[i + 1] - values[i]
        } else {
            values[i] - values[i + 1]
        },
    decreases values.len(),
{
    one_fewer_is_compared(values);
    if i < values.len() - 2 {
        let earlier = values.drop_last();
        assert(earlier[i] == values[i] && earlier[i + 1] == values[i + 1]);
        one_fewer_is_compared(earlier);
        jitter_is_between_neighbours(earlier, i);
        assert(jitter_of(values)[i] == jitter_of(earlier)[i]);
    } else {
        crate::modular::distance_is_exact(values[i + 1], values[i]);
        one_fewer_is_compared(values.drop_last());
    }
}

/// Each of a run of values but the first two is compared with where it would be if
/// the two before it went on at their rate.
pub proof fn a_residual_is_what_a_rate_leaves(values: Seq<i64>, i: int)
    requires
        0 <= i < values.len() - 2,
        i64::MIN <= 2 * values[i + 1] <= i64::MAX,
        i64::MIN <= 2 * values[i + 1] - values[i] <= i64::MAX,
        i64::MIN < values[i + 2] - 2 * values[i + 1] + values[i] <= i64::MAX,
    ensures
        residuals_of(values).len() == values.len() - 2,
        residuals_of(values)[i] == values[i + 2] - 2 * values[i + 1] + values[i] || residuals_of(
            values,
        )[i] == -(values[i + 2] - 2 * values[i + 1] + values[i]),
        residuals_of(values)[i] >= 0,
    decreases values.len(),
{
    one_fewer_is_compared(values);
    if i < values.len() - 3 {
        let earlier = values.drop_last();
        assert(earlier[i] == values[i] && earlier[i + 1] == values[i + 1] && earlier[i + 2]
            == values[i + 2]);
        one_fewer_is_compared(earlier);
        a_residual_is_what_a_rate_leaves(earlier, i);
        assert(residuals_of(values)[i] == residuals_of(earlier)[i]);
    } else {
        one_fewer_is_compared(values.drop_last());
        crate::modular::product_is_exact(2, values[i + 1]);
        let predicted = BurstView::predicted(values[i + 1], values[i]);
        assert(predicted == 2 * values[i + 1] - values[i]);
        crate::modular::distance_is_exact(values[i + 2], predicted);
    }
}

/// The shortest of a run of values is at most each of them, and is one of them if
/// there is any.
pub proof fn shortest_is_shortest(values: Seq<i64>)
    ensures
        forall|i: int| 0 <= i < values.len() ==> shortest(values) <= #[trigger] values[i],
        values.len() > 0 ==> exists|i: int|
            0 <= i < values.len() && #[trigger] values[i] == shortest(values),
    decreases values.len(),
{
    if values.len() > 0 {
        let earlier = values.drop_last();
        shortest_is_shortest(earlier);
        assert(values[values.len() - 1] == values.last());
        assert forall|i: int| 0 <= i < values.len() implies shortest(values)
            <= #[trigger] values[i] by {
            if i < earlier.len() {
                assert(values[i] == earlier[i]);
            }
        }
        if shortest(values) != values.last() {
            if earlier.len() > 0 {
                let i = choose|i: int|
                    0 <= i < earlier.len() && #[trigger] earlier[i] == shortest(earlier);
                assert(values[i] == earlier[i]);
            }
        }
    }
}

/// The three figures of a distribution, by its values.
pub open spec fn are_percentiles(figures: PercentilesView, values: Seq<i64>) -> bool {
    &&& figures.p50 == percentile_edge(histogram_of(values), 50)
    &&& figures.p95 == percentile_edge(histogram_of(values), 95)
    &&& figures.p99 == percentile_edge(histogram_of(values), 99)
}

/// What is reported of an estimator is of the windows of so many exchanges: how
/// much their quickest exchanges disagree, how much their medians do, and what a
/// constant rate leaves, with the worst of each.
pub open spec fn is_of_windows(report: BurstReportView, n: nat, run: Seq<(u64, i64, i64)>) -> bool {
    &&& report.length == n
    &&& report.windows == run.len() / n
    &&& are_percentiles(report.best, jitter_of(estimates(n, run)))
    &&& report.worst == greatest(jitter_of(estimates(n, run)))
    &&& are_percentiles(report.median, jitter_of(medians(n, run)))
    &&& report.worst_median == greatest(jitter_of(medians(n, run)))
    &&& are_percentiles(report.residual, residuals_of(estimates(n, run)))
    &&& report.worst_residual == greatest(residuals_of(estimates(n, run)))
}

/// A report is of the samples that were taken, and of nothing else: how many there
/// were and what share was kept, the shortest round trip, the distributions of the
/// round trips and of how far apart consecutive offsets were, and the three lengths
/// of window.
pub proof fn a_report_is_of_the_samples_taken(run: Seq<(u64, i64, i64)>, now: u64)
    requires
        run.len() <= u32::MAX,
    ensures
        ({
            let report = after_samples(run).report(now);
            &&& report.total == run.len()
            &&& report.kept == kept_offsets(run).len()
            &&& run.len() > 0 ==> report.kept_percent * run.len() <= report.kept * 100 < (
            report.kept_percent + 1) * run.len()
            &&& run.len() == 0 ==> report.kept_percent == 0
            &&& forall|i: int| 0 <= i < run.len() ==> report.min_rtt <= (#[trigger] run[i]).1
            &&& run.len() > 0 ==> exists|i: int|
                0 <= i < run.len() && (#[trigger] run[i]).1 == report.min_rtt
            &&& are_percentiles(report.rtt, rtts_of(run))
            &&& are_percentiles(report.jitter_all, jitter_of(all_offsets(run)))
            &&& report.worst_all == greatest(jitter_of(all_offsets(run)))
            &&& are_percentiles(report.jitter_kept, jitter_of(kept_offsets(run)))
            &&& report.worst_kept == greatest(jitter_of(kept_offsets(run)))
            &&& report.bursts.len() == 3
            &&& is_of_windows(report.bursts[0], 8, run)
            &&& is_of_windows(report.bursts[1], 32, run)
            &&& is_of_windows(report.bursts[2], 128, run)
        }),
{
    samples_are_held_as_distributions(run);
    an_estimator_holds_what_was_measured(8, run);
    an_estimator_holds_what_was_measured(32, run);
    an_estimator_holds_what_was_measured(128, run);
    let samples = after_samples(run);
    assert(samples.best[0] == after_exchanges(8, run));
    assert(samples.best[1] == after_exchanges(32, run));
    assert(samples.best[2] == after_exchanges(128, run));
    shortest_is_shortest(rtts_of(run));
    assert forall|i: int| 0 <= i < run.len() implies samples.min_rtt <= (#[trigger] run[i]).1 by {
        assert(rtts_of(run)[i] == run[i].1);
    }
    if run.len() > 0 {
        let i = choose|i: int|
            0 <= i < rtts_of(run).len() && #[trigger] rtts_of(run)[i] == shortest(rtts_of(run));
        assert(run[i].1 == samples.min_rtt);
        let k = samples.kept as int * 100;
        let n = run.len() as int;
        vstd::arithmetic::div_mod::lemma_fundamental_div_mod(k, n);
        vstd::arithmetic::div_mod::lemma_mod_bound(k, n);
        let q = k / n;
        assert((q + 1) * n == n * q + n && q * n == n * q) by (nonlinear_arith);
    }
}

/// Drift is counted from the first window of the longest length to the last one,
/// over the whole seconds since the first closed; parts per million are what it
/// comes to in one of them. Before there is such a window there is none.
pub proof fn drift_is_from_the_first_window_to_the_last(run: Seq<(u64, i64, i64)>, now: u64)
    requires
        run.len() <= u32::MAX,
    ensures
        ({
            let report = after_samples(run).report(now);
            let e = estimates(128, run);
            &&& e.len() == run.len() / 128
            &&& run.len() < 128 ==> report.drift_us == 0 && report.seconds == 0 && report.ppm == 0
            &&& run.len() >= 128 ==> {
                let since = now - run[127].0;
                &&& i64::MIN <= e.last() - e[0] <= i64::MAX ==> report.drift_us == e.last() - e[0]
                &&& since >= 0 ==> report.seconds * 1_000_000 <= since < (report.seconds + 1)
                    * 1_000_000
                &&& since < 0 ==> report.seconds == 0
                &&& report.seconds == 0 ==> report.ppm == 0
                &&& report.seconds > 0 && report.drift_us >= 0 ==> report.ppm >= 0 && report.ppm
                    * report.seconds <= report.drift_us < (report.ppm + 1) * report.seconds
                &&& report.seconds > 0 && report.drift_us <= 0 ==> report.ppm <= 0 && (report.ppm
                    - 1) * report.seconds < report.drift_us <= report.ppm * report.seconds
            }
        }),
{
    samples_are_held_as_distributions(run);
    an_estimator_holds_what_was_measured(128, run);
    let samples = after_samples(run);
    assert(samples.best[2] == after_exchanges(128, run));
    let e = estimates(128, run);
    if run.len() >= 128 {
        assert(e.len() > 0);
        if samples.seconds(now) > 0 {
            crate::modular::a_quotient_is_rounded_towards_zero(
                samples.drift_us(now) as int,
                samples.seconds(now),
            );
        }
    }
}

/// Every bucket is 25 microseconds wide up to two milliseconds, and half of a
/// millisecond from there.
pub proof fn buckets_have_two_widths(b: int)
    requires
        b >= 0,
    ensures
        edge(0) == 25,
        b < 79 ==> edge(b + 1) - edge(b) == 25,
        b >= 79 ==> edge(b + 1) - edge(b) == 500,
{
}

/// Whatever the round trips are, they are held against each other as twice the one and
/// three times the other, each up to a multiple of two to the sixty-fourth.
pub proof fn wild_round_trips_wrap(rtt: i64, min_rtt: i64)
    ensures
        exists|k: int, m: int|
            ({
                let twice = 2 * rtt + #[trigger] (k * 0x1_0000_0000_0000_0000);
                let thrice = 3 * min_rtt + #[trigger] (m * 0x1_0000_0000_0000_0000);
                &&& i64::MIN <= twice <= i64::MAX
                &&& i64::MIN <= thrice <= i64::MAX
                &&& passes(rtt, min_rtt) <==> twice <= thrice
            }),
{
    let k = crate::modular::a_product_wraps(rtt, 2);
    let m = crate::modular::a_product_wraps(min_rtt, 3);
    let twice = 2 * rtt + k * 0x1_0000_0000_0000_0000;
    let thrice = 3 * min_rtt + m * 0x1_0000_0000_0000_0000;
    assert(rtt.wrapping_mul(2) == twice);
    assert(min_rtt.wrapping_mul(3) == thrice);
}

} // verus!
