//! Putting values in order, and the middle of them.

use vstd::prelude::*;
use vstd::relations::sorted_by;
use vstd::relations::total_ordering;

use crate::modular::half_towards_zero;

verus! {

/// The order of the whole numbers.
pub open spec fn at_most() -> spec_fn(i64, i64) -> bool {
    |a: i64, b: i64| a <= b
}

/// The same values, smallest first.
pub open spec fn ascending(values: Seq<i64>) -> Seq<i64> {
    values.sort_by(at_most())
}

/// The mean of the two middle values, rounded towards zero.
pub open spec fn median(values: Seq<i64>) -> i64 {
    let sorted = ascending(values);
    let n = values.len() as int;
    half_towards_zero(sorted[n / 2 - 1] + sorted[n / 2]) as i64
}

proof fn at_most_is_total()
    ensures
        total_ordering(at_most()),
{
}

/// Whatever is in order and holds the same values is what `ascending` gives.
pub proof fn ascending_is_unique(values: Seq<i64>, sorted: Seq<i64>)
    requires
        sorted_by(sorted, at_most()),
        sorted.to_multiset() == values.to_multiset(),
    ensures
        sorted == ascending(values),
{
    at_most_is_total();
    values.lemma_sort_by_ensures(at_most());
    vstd::seq_lib::lemma_sorted_unique(sorted, ascending(values), at_most());
}

/// Ordering keeps every value and puts no larger one before a smaller.
pub proof fn ascending_is_an_ordering(values: Seq<i64>)
    ensures
        ascending(values).len() == values.len(),
        ascending(values).to_multiset() == values.to_multiset(),
        forall|i: int, j: int|
            0 <= i <= j < values.len() ==> #[trigger] ascending(values)[i] <= #[trigger] ascending(
                values,
            )[j],
{
    broadcast use vstd::seq_lib::group_to_multiset_ensures;

    at_most_is_total();
    values.lemma_sort_by_ensures(at_most());
    let sorted = ascending(values);
    assert(sorted.len() == sorted.to_multiset().len());
    assert forall|i: int, j: int| 0 <= i <= j < values.len() implies #[trigger] sorted[i]
        <= #[trigger] sorted[j] by {
        if i < j {
            assert(at_most()(sorted[i], sorted[j]));
        }
    }
}

/// The median lies between the two middle values.
pub proof fn median_is_in_the_middle(values: Seq<i64>)
    requires
        values.len() >= 2,
    ensures
        ({
            let n = values.len() as int;
            &&& ascending(values)[n / 2 - 1] <= median(values) <= ascending(values)[n / 2]
        }),
{
    ascending_is_an_ordering(values);
    let n = values.len() as int;
    let a = ascending(values)[n / 2 - 1];
    let b = ascending(values)[n / 2];
    assert(a <= b);
}

/// The values of a slice, smallest first.
pub fn ascending_of(values: &[i64]) -> (out: Vec<i64>)
    ensures
        out@ == ascending(values@),
        out@.len() == values@.len(),
{
    broadcast use vstd::seq_lib::group_to_multiset_ensures;

    let mut out: Vec<i64> = Vec::new();
    let mut i: usize = 0;
    while i < values.len()
        invariant
            i <= values@.len(),
            out@.len() == i,
            out@.to_multiset() == values@.take(i as int).to_multiset(),
            forall|a: int, b: int| 0 <= a <= b < out@.len() ==> out@[a] <= out@[b],
        decreases values@.len() - i,
    {
        broadcast use vstd::seq_lib::group_to_multiset_ensures;

        let value: i64 = values[i];
        let mut at: usize = 0;
        while at < out.len() && out[at] <= value
            invariant
                at <= out@.len(),
                forall|a: int| 0 <= a < at ==> out@[a] <= value,
            decreases out@.len() - at,
        {
            at = at + 1;
        }
        proof {
            vstd::seq_lib::to_multiset_insert(out@, at as int, value);
            assert(values@.take(i + 1) =~= values@.take(i as int).push(value));
            vstd::seq_lib::to_multiset_build(values@.take(i as int), value);
        }
        out.insert(at, value);
        i = i + 1;
    }
    proof {
        assert(values@.take(i as int) =~= values@);
        assert(sorted_by(out@, at_most()));
        ascending_is_unique(values@, out@);
        ascending_is_an_ordering(values@);
    }
    out
}

/// The mean of the two middle values of a slice.
///
/// Taken in 128 bits, because two large values of opposite sign would otherwise
/// overflow on the way to a perfectly representable answer.
pub fn median_of(values: &[i64]) -> (r: i64)
    requires
        values@.len() >= 2,
    ensures
        r == median(values@),
{
    let sorted: Vec<i64> = ascending_of(values);
    let n: usize = values.len();
    let sum: i128 = sorted[n / 2 - 1] as i128 + sorted[n / 2] as i128;
    proof {
        median_is_in_the_middle(values@);
    }
    (sum / 2) as i64
}

/// Twice the median is the sum of the two middle values, or one closer to zero.
pub proof fn a_median_is_half_of_the_two_in_the_middle(values: Seq<i64>)
    requires
        values.len() >= 2,
    ensures
        ({
            let n = values.len() as int;
            let both = ascending(values)[n / 2 - 1] + ascending(values)[n / 2];
            &&& both >= 0 ==> median(values) >= 0 && 2 * median(values) <= both <= 2 * median(
                values,
            ) + 1
            &&& both <= 0 ==> median(values) <= 0 && 2 * median(values) - 1 <= both <= 2 * median(
                values,
            )
        }),
{
    median_is_in_the_middle(values);
}

} // verus!
