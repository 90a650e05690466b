//! A histogram in fixed memory, because the interesting figure is a tail.
//!
//! A channel that is reliably late can be compensated for; one that is usually
//! fine and occasionally awful cannot, because a receiver never knows which kind
//! of packet it is holding. Detail is wanted around one frame and range is wanted
//! to see a network behaving badly, so there are two widths of bucket.
//!
//! One threshold matters more than the buckets do: two frames, which no bucket
//! starts at. What reaches it is counted apart, so that its count is exact.

use vstd::prelude::*;

use crate::tally::a_histogram_counts_its_samples;
use crate::tally::a_histogram_holds_its_samples;
use crate::tally::at_or_below;
use crate::tally::bumped;
use crate::tally::empty;
use crate::tally::find_percentile;
use crate::tally::percentile_bucket;
use crate::tally::percentile_bucket_splits_the_samples;
use crate::tally::tallied;
use crate::tally::total;
use crate::tally::total_of;
use crate::tally::total_splits;

verus! {

/// Below forty milliseconds: buckets of 250 microseconds, which resolve a frame
/// to about one and a half percent.
pub const FINE_US: i64 = 250;

pub const FINE_LIMIT_US: i64 = 40_000;

pub const FINE_BUCKETS: usize = 160;

/// Above it: buckets of ten milliseconds out to a second.
pub const COARSE_US: i64 = 10_000;

pub const COARSE_BUCKETS: usize = 96;

pub const BUCKETS: usize = 256;

/// Two frames, in microseconds: a gap as long as this is a frame rendered with
/// stale data.
pub const TWO_FRAMES_US: i64 = 33_334;

/// Which bucket a value in microseconds falls in.
pub open spec fn bucket(value: int) -> int {
    if value <= 0 {
        0
    } else if value < FINE_LIMIT_US {
        value / FINE_US as int
    } else if value < FINE_LIMIT_US + COARSE_BUCKETS * COARSE_US {
        FINE_BUCKETS + (value - FINE_LIMIT_US) / COARSE_US as int
    } else {
        BUCKETS - 1
    }
}

/// The upper edge of a bucket, in microseconds.
pub open spec fn edge(index: int) -> int {
    if index < FINE_BUCKETS {
        (index + 1) * FINE_US
    } else {
        FINE_LIMIT_US + (index - FINE_BUCKETS + 1) * COARSE_US
    }
}

/// The upper edge of the bucket that holds the `p`th percentile, or -1 if the
/// histogram holds nothing.
pub open spec fn percentile_edge(counts: Seq<u32>, p: nat) -> int {
    if total(counts) == 0 {
        -1
    } else {
        edge(percentile_bucket(counts, p))
    }
}

#[verifier::ext_equal]
pub struct HistogramView {
    /// How many samples are in each bucket.
    pub counts: Seq<u32>,
    /// How many of those in the bucket of two frames are at least two frames.
    pub over: u32,
}

/// In the bucket of two frames, and at least that.
pub open spec fn marked(value: int) -> bool {
    value >= TWO_FRAMES_US && bucket(value) == bucket(TWO_FRAMES_US as int)
}

impl HistogramView {
    /// No samples.
    pub open spec fn fresh() -> HistogramView {
        HistogramView { counts: empty(BUCKETS as nat), over: 0 }
    }

    pub open spec fn wf(self) -> bool {
        &&& self.counts.len() == BUCKETS
        &&& self.over <= self.counts[bucket(TWO_FRAMES_US as int)]
    }

    /// One sample more. A full bucket stays full.
    pub open spec fn with(self, value: int) -> HistogramView {
        HistogramView {
            counts: bumped(self.counts, bucket(value)),
            over: if marked(value) {
                self.over.saturating_add(1)
            } else {
                self.over
            },
        }
    }

    /// How many samples are counted as at least `threshold`: those from the
    /// bucket of `threshold` on, and of the bucket of two frames only those that
    /// are at least that, if `threshold` is.
    pub open spec fn counted_from(self, threshold: int) -> nat {
        let first = bucket(threshold);
        if marked(threshold) {
            self.over as nat + total(self.counts.skip(first + 1))
        } else {
            total(self.counts.skip(first))
        }
    }
}

pub struct Histogram {
    counts: [u32; BUCKETS],
    /// How many in the bucket of two frames are at least two frames.
    over: u32,
}

impl View for Histogram {
    type V = HistogramView;

    closed spec fn view(&self) -> HistogramView {
        HistogramView { counts: self.counts@, over: self.over }
    }
}

impl Default for Histogram {
    fn default() -> (r: Histogram)
        ensures
            r@ == HistogramView::fresh(),
            r@.wf(),
    {
        Histogram::new()
    }
}

impl Histogram {
    pub fn new() -> (r: Histogram)
        ensures
            r@ == HistogramView::fresh(),
            r@.wf(),
    {
        let r = Histogram { counts: [0;BUCKETS], over: 0 };
        assert(r@ =~= HistogramView::fresh());
        r
    }

    /// One sample more. A full bucket stays full.
    pub fn add(&mut self, value: i64)
        ensures
            final(self)@ == old(self)@.with(value as int),
            old(self)@.wf() ==> final(self)@.wf(),
    {
        let i: usize = Self::bucket_of(value);
        let n: u32 = self.counts[i];
        self.counts[i] = n.saturating_add(1);
        if value >= TWO_FRAMES_US && i == Self::bucket_of(TWO_FRAMES_US) {
            self.over = self.over.saturating_add(1);
        }
        assert(self@ =~= old(self)@.with(value as int));
    }

    /// How many samples there are.
    pub fn samples(&self) -> (r: u64)
        ensures
            r == total(self@.counts),
    {
        total_of(self.counts.as_slice())
    }

    /// How many samples were at least `threshold`: exactly, if `threshold` starts
    /// a bucket or is two frames. Between those the histogram does not tell
    /// samples apart, and counts from the nearest of them below.
    pub fn count_above(&self, threshold: i64) -> (r: u32)
        requires
            self@.counted_from(threshold as int) <= u32::MAX,
        ensures
            r == self@.counted_from(threshold as int),
    {
        let first: usize = Self::bucket_of(threshold);
        if threshold >= TWO_FRAMES_US && first == Self::bucket_of(TWO_FRAMES_US) {
            let rest: &[u32] = vstd::slice::slice_subrange(
                self.counts.as_slice(),
                first + 1,
                BUCKETS,
            );
            assert(rest@ =~= self@.counts.skip(first + 1));
            self.over + total_of(rest) as u32
        } else {
            let rest: &[u32] = vstd::slice::slice_subrange(self.counts.as_slice(), first, BUCKETS);
            assert(rest@ =~= self@.counts.skip(first as int));
            total_of(rest) as u32
        }
    }

    /// The upper edge of the bucket holding the `p`th percentile, or -1 if there
    /// is none.
    ///
    /// An upper edge rather than an interpolation: the bucket is already finer
    /// than the thing being measured.
    pub fn percentile(&self, p: u32) -> (r: i64)
        ensures
            r == percentile_edge(self@.counts, p as nat),
    {
        match find_percentile(self.counts.as_slice(), p) {
            Some(i) => Self::edge_of(i),
            None => -1,
        }
    }

    pub fn bucket_of(value: i64) -> (r: usize)
        ensures
            r == bucket(value as int),
            r < BUCKETS,
    {
        if value <= 0 {
            0
        } else if value < FINE_LIMIT_US {
            (value / FINE_US) as usize
        } else if value < 1_000_000 {
            FINE_BUCKETS + ((value - FINE_LIMIT_US) / COARSE_US) as usize
        } else {
            BUCKETS - 1
        }
    }

    pub fn edge_of(index: usize) -> (r: i64)
        requires
            edge(index as int) <= i64::MAX,
        ensures
            r == edge(index as int),
    {
        if index < FINE_BUCKETS {
            (index as i64 + 1) * FINE_US
        } else {
            FINE_LIMIT_US + ((index - FINE_BUCKETS) as i64 + 1) * COARSE_US
        }
    }
}

/// The bucket of each of a run of samples.
pub open spec fn buckets(values: Seq<int>) -> Seq<int> {
    values.map_values(|v: int| bucket(v))
}

/// The histogram of a run of samples.
pub open spec fn histogram(values: Seq<int>) -> HistogramView
    decreases values.len(),
{
    if values.len() == 0 {
        HistogramView::fresh()
    } else {
        histogram(values.drop_last()).with(values.last())
    }
}

/// How many of a run of samples are at least `threshold`.
pub open spec fn at_least(values: Seq<int>, threshold: int) -> nat
    decreases values.len(),
{
    if values.len() == 0 {
        0
    } else {
        at_least(values.drop_last(), threshold) + if values.last() >= threshold {
            1nat
        } else {
            0nat
        }
    }
}

/// A positive value at which a bucket starts.
pub open spec fn starts_a_bucket(value: int) -> bool {
    ||| 0 < value <= FINE_LIMIT_US && value % FINE_US as int == 0
    ||| FINE_LIMIT_US < value <= 990_000 && value % COARSE_US as int == 0
}

/// A value lies below the upper edge of its bucket, and at or above that of the
/// bucket before it, unless it is beyond either end of the range.
pub proof fn a_value_lies_under_the_edge_of_its_bucket(value: int)
    ensures
        0 <= bucket(value) < BUCKETS,
        value < 1_000_000 ==> value < edge(bucket(value)),
        bucket(value) > 0 ==> value >= edge(bucket(value) - 1),
{
}

/// Larger values are never in earlier buckets.
pub proof fn buckets_are_monotone(a: int, b: int)
    requires
        a <= b,
    ensures
        bucket(a) <= bucket(b),
{
}

proof fn a_histogram_tallies_its_buckets(values: Seq<int>)
    ensures
        histogram(values).counts == tallied(buckets(values), BUCKETS as nat),
    decreases values.len(),
{
    if values.len() > 0 {
        a_histogram_tallies_its_buckets(values.drop_last());
        assert(buckets(values).drop_last() =~= buckets(values.drop_last()));
    }
}

proof fn counted_from_a_bucket(values: Seq<int>, b: int)
    requires
        values.len() <= u32::MAX,
        0 <= b < BUCKETS,
    ensures
        total(histogram(values).counts.skip(b)) + at_or_below(buckets(values), b - 1)
            == values.len(),
        histogram(values).counts.len() == BUCKETS,
{
    let bs = buckets(values);
    assert forall|k: int| 0 <= k < bs.len() implies 0 <= #[trigger] bs[k] < BUCKETS by {
        a_value_lies_under_the_edge_of_its_bucket(values[k]);
    }
    a_histogram_tallies_its_buckets(values);
    a_histogram_holds_its_samples(bs, BUCKETS as nat);
    a_histogram_counts_its_samples(bs, BUCKETS as nat, b - 1);
    total_splits(histogram(values).counts, b);
}

proof fn values_and_their_buckets(values: Seq<int>, threshold: int)
    ensures
        at_least(values, threshold) + at_or_below(buckets(values), bucket(threshold) - 1)
            <= values.len(),
        starts_a_bucket(threshold) ==> at_least(values, threshold) + at_or_below(
            buckets(values),
            bucket(threshold) - 1,
        ) == values.len(),
    decreases values.len(),
{
    if values.len() > 0 {
        let earlier = values.drop_last();
        values_and_their_buckets(earlier, threshold);
        assert(buckets(values).drop_last() =~= buckets(earlier));
        let v = values.last();
        assert(buckets(values).last() == bucket(v));
        if v >= threshold {
            buckets_are_monotone(threshold, v);
        } else if starts_a_bucket(threshold) {
            assert(bucket(v) < bucket(threshold));
        }
    }
}

proof fn what_is_over_two_frames_is_counted_apart(values: Seq<int>)
    requires
        values.len() <= u32::MAX,
    ensures
        histogram(values).over <= values.len(),
        at_least(values, TWO_FRAMES_US as int) + at_or_below(
            buckets(values),
            bucket(TWO_FRAMES_US as int),
        ) == values.len() + histogram(values).over,
    decreases values.len(),
{
    if values.len() > 0 {
        let earlier = values.drop_last();
        what_is_over_two_frames_is_counted_apart(earlier);
        assert(buckets(values).drop_last() =~= buckets(earlier));
        let v = values.last();
        assert(buckets(values).last() == bucket(v));
        if v >= TWO_FRAMES_US {
            buckets_are_monotone(TWO_FRAMES_US as int, v);
        } else {
            buckets_are_monotone(v, TWO_FRAMES_US as int);
        }
    }
}

proof fn fewer_reach_a_higher_threshold(values: Seq<int>, low: int, high: int)
    requires
        low <= high,
    ensures
        at_least(values, high) <= at_least(values, low) <= values.len(),
    decreases values.len(),
{
    if values.len() > 0 {
        fewer_reach_a_higher_threshold(values.drop_last(), low, high);
    }
}

/// No more samples are counted than there are.
pub proof fn no_more_are_counted_than_there_are(histogram: HistogramView, threshold: int)
    requires
        histogram.wf(),
    ensures
        histogram.counted_from(threshold) <= total(histogram.counts),
{
    a_value_lies_under_the_edge_of_its_bucket(threshold);
    let first = bucket(threshold);
    let counts = histogram.counts;
    total_splits(counts, first);
    total_splits(counts.skip(first), 1);
    let alone = counts.skip(first).take(1);
    assert(alone.drop_last() =~= Seq::<u32>::empty());
    assert(total(alone.drop_last()) == 0);
    assert(alone.last() == counts[first]);
    assert(counts.skip(first).skip(1) =~= counts.skip(first + 1));
}

/// `count_above` never misses a sample that was at least the threshold, and it
/// is exact where the threshold starts a bucket or is two frames.
pub proof fn count_above_counts_what_was_at_least_the_threshold(values: Seq<int>, threshold: int)
    requires
        values.len() <= u32::MAX,
    ensures
        at_least(values, threshold) <= histogram(values).counted_from(threshold) <= values.len(),
        starts_a_bucket(threshold) || threshold == TWO_FRAMES_US ==> histogram(
            values,
        ).counted_from(threshold) == at_least(values, threshold),
{
    a_value_lies_under_the_edge_of_its_bucket(threshold);
    if marked(threshold) {
        counted_from_a_bucket(values, bucket(threshold) + 1);
        what_is_over_two_frames_is_counted_apart(values);
        fewer_reach_a_higher_threshold(values, TWO_FRAMES_US as int, threshold);
    } else {
        counted_from_a_bucket(values, bucket(threshold));
        values_and_their_buckets(values, threshold);
    }
}

/// How many of a run of samples are less than `limit`.
pub open spec fn below(values: Seq<int>, limit: int) -> nat
    decreases values.len(),
{
    if values.len() == 0 {
        0
    } else {
        below(values.drop_last(), limit) + if values.last() < limit {
            1nat
        } else {
            0nat
        }
    }
}

proof fn below_an_edge_is_at_or_below_its_bucket(values: Seq<int>, b: int)
    requires
        0 <= b < BUCKETS - 1,
    ensures
        below(values, edge(b)) == at_or_below(buckets(values), b),
    decreases values.len(),
{
    if values.len() > 0 {
        below_an_edge_is_at_or_below_its_bucket(values.drop_last(), b);
        assert(buckets(values).drop_last() =~= buckets(values.drop_last()));
        let v = values.last();
        assert(buckets(values).last() == bucket(v));
        a_value_lies_under_the_edge_of_its_bucket(v);
    }
}

/// At least `p` percent of the samples that made a histogram are below the
/// percentile it reports, unless they run off its end.
pub proof fn a_percentile_is_above_its_share(values: Seq<int>, p: nat)
    requires
        0 < values.len() <= u32::MAX,
        p <= 100,
        percentile_edge(histogram(values).counts, p) < edge(BUCKETS - 1),
    ensures
        below(values, percentile_edge(histogram(values).counts, p)) * 100 >= values.len() * p,
{
    let bs = buckets(values);
    let counts = histogram(values).counts;
    assert forall|k: int| 0 <= k < bs.len() implies 0 <= #[trigger] bs[k] < BUCKETS by {
        a_value_lies_under_the_edge_of_its_bucket(values[k]);
    }
    a_histogram_tallies_its_buckets(values);
    a_histogram_holds_its_samples(bs, BUCKETS as nat);
    percentile_bucket_splits_the_samples(counts, p);
    let b = percentile_bucket(counts, p);
    a_histogram_counts_its_samples(bs, BUCKETS as nat, b);
    below_an_edge_is_at_or_below_its_bucket(values, b);
}

/// A histogram after one more sample is the histogram of the samples and that
/// one.
pub proof fn histogram_of_one_more(values: Seq<int>, value: int)
    ensures
        histogram(values.push(value)) == histogram(values).with(value),
{
    assert(values.push(value).drop_last() =~= values);
}

/// An edge between two buckets: every quarter of a millisecond up to forty, and
/// every ten milliseconds from there up to a second.
pub open spec fn is_edge(limit: int) -> bool {
    ||| 250 <= limit <= 40_000 && limit % 250 == 0
    ||| 40_000 < limit <= 1_000_000 && limit % 10_000 == 0
}

/// Buckets end at the edges, and lie one above the other: a value is in the first
/// one whose edge is above it, or in the last if none is.
pub proof fn buckets_end_at_the_edges(value: int, b: int)
    requires
        0 <= b < BUCKETS,
    ensures
        is_edge(edge(b)),
        b > 0 ==> edge(b - 1) < edge(b),
        edge(b) <= 1_000_000,
        bucket(value) <= b <==> value < edge(b) || b == BUCKETS - 1,
        0 <= bucket(value) < BUCKETS,
        BUCKETS == 256,
{
}

/// Every edge is that of a bucket.
pub proof fn every_edge_ends_a_bucket(limit: int) -> (b: int)
    requires
        is_edge(limit),
    ensures
        0 <= b < BUCKETS,
        edge(b) == limit,
{
    if limit <= 40_000 {
        limit / 250 - 1
    } else {
        159 + (limit - 40_000) / 10_000
    }
}

proof fn edges_rise(a: int, b: int)
    requires
        0 <= a <= b < BUCKETS,
    ensures
        edge(a) <= edge(b),
        a < b ==> edge(a) < edge(b),
{
}

/// A percentile is at or below an edge exactly if its share of the samples is below
/// that edge; and it is an edge itself. Nothing has no percentile.
pub proof fn a_percentile_is_the_first_edge_with_its_share_below(
    values: Seq<int>,
    p: nat,
    limit: int,
)
    requires
        values.len() <= u32::MAX,
        is_edge(limit),
        limit < 1_000_000,
    ensures
        values.len() == 0 ==> percentile_edge(histogram(values).counts, p) == -1,
        values.len() > 0 ==> is_edge(percentile_edge(histogram(values).counts, p)),
        values.len() > 0 ==> (percentile_edge(histogram(values).counts, p) <= limit <==> below(
            values,
            limit,
        ) * 100 >= values.len() * p),
{
    let bs = buckets(values);
    let counts = histogram(values).counts;
    assert forall|k: int| 0 <= k < bs.len() implies 0 <= #[trigger] bs[k] < BUCKETS by {
        a_value_lies_under_the_edge_of_its_bucket(values[k]);
    }
    a_histogram_tallies_its_buckets(values);
    a_histogram_holds_its_samples(bs, BUCKETS as nat);
    if values.len() > 0 {
        let n = values.len();
        let target = crate::tally::quota(n, p);
        crate::tally::first_reaching_is_first(counts, target, 0);
        let b = percentile_bucket(counts, p);
        buckets_end_at_the_edges(0, b);
        let j = every_edge_ends_a_bucket(limit);
        below_an_edge_is_at_or_below_its_bucket(values, j);
        a_histogram_counts_its_samples(bs, BUCKETS as nat, j);
        let c = below(values, limit);
        assert(crate::tally::up_to(counts, j) == c);
        if b <= j {
            crate::tally::up_to_is_monotone(counts, b, j);
            assert(c >= target);
            edges_rise(b, j);
        } else {
            assert(c < target);
            edges_rise(j, b);
        }
        assert(c >= target <==> c * 100 >= n * p);
    }
}

/// A histogram holds as many samples as were taken, and of those at or above an
/// edge or two frames it counts exactly how many there were.
pub proof fn a_histogram_counts_from_every_edge(values: Seq<int>, limit: int)
    requires
        values.len() <= u32::MAX,
        is_edge(limit) && limit < 1_000_000 || limit == 33_334,
    ensures
        total(histogram(values).counts) == values.len(),
        histogram(values).counted_from(limit) == at_least(values, limit),
        at_least(values, limit) + below(values, limit) == values.len(),
{
    let bs = buckets(values);
    assert forall|k: int| 0 <= k < bs.len() implies 0 <= #[trigger] bs[k] < BUCKETS by {
        a_value_lies_under_the_edge_of_its_bucket(values[k]);
    }
    a_histogram_tallies_its_buckets(values);
    a_histogram_holds_its_samples(bs, BUCKETS as nat);
    count_above_counts_what_was_at_least_the_threshold(values, limit);
    either_at_least_or_below(values, limit);
}

proof fn either_at_least_or_below(values: Seq<int>, limit: int)
    ensures
        at_least(values, limit) + below(values, limit) == values.len(),
    decreases values.len(),
{
    if values.len() > 0 {
        either_at_least_or_below(values.drop_last(), limit);
    }
}

/// Where counting starts for a threshold: everything for one in the first bucket, two
/// frames for one in the rest of their bucket, and otherwise the start of the bucket
/// that it is in.
pub open spec fn counted_from_at(threshold: int) -> int {
    if 33_334 <= threshold < 33_500 {
        33_334
    } else if threshold < 40_000 {
        threshold - threshold % 250
    } else if threshold < 1_000_000 {
        threshold - threshold % 10_000
    } else {
        990_000
    }
}

/// Whatever the threshold is, exactly those samples are counted that are at least as
/// long as where counting starts for it; for one in the first bucket, all are.
pub proof fn every_threshold_counts_from_its_start(values: Seq<int>, threshold: int)
    requires
        values.len() <= u32::MAX,
    ensures
        threshold < 250 ==> histogram(values).counted_from(threshold) == values.len(),
        threshold >= 250 ==> histogram(values).counted_from(threshold) == at_least(
            values,
            counted_from_at(threshold),
        ),
{
    if threshold < 250 {
        assert(bucket(threshold) == 0);
        assert(bucket(TWO_FRAMES_US as int) == 133);
        counted_from_a_bucket(values, 0);
        nothing_is_below_the_first(values);
    } else {
        let start = counted_from_at(threshold);
        assert(bucket(start) == bucket(threshold));
        assert(marked(start) <==> marked(threshold));
        count_above_counts_what_was_at_least_the_threshold(values, start);
    }
}

proof fn nothing_is_below_the_first(values: Seq<int>)
    ensures
        at_or_below(buckets(values), -1) == 0,
    decreases values.len(),
{
    if values.len() > 0 {
        nothing_is_below_the_first(values.drop_last());
        assert(buckets(values).drop_last() =~= buckets(values.drop_last()));
        a_value_lies_under_the_edge_of_its_bucket(values.last());
        assert(buckets(values).last() == bucket(values.last()));
    }
}

/// Every bucket is a quarter of a millisecond wide up to forty, and ten from there.
pub proof fn buckets_have_two_widths(b: int)
    requires
        b >= 0,
    ensures
        edge(0) == 250,
        b < 159 ==> edge(b + 1) - edge(b) == 250,
        b >= 159 ==> edge(b + 1) - edge(b) == 10_000,
{
}

} // verus!
