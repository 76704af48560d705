//! The mathematical model of the per-bin aggregates: five parallel sequences
//! in the logical order of the bins, and what a sample or a merge does to
//! them.
use vstd::prelude::*;
use crate::arrays::{cell_total, position};
use crate::grid::{bin_index, shape_of};

verus! {

/// The aggregates of every bin, each sequence in the logical order of the
/// bins. A bin whose count is zero has seen no sample: its extrema are then
/// without meaning.
pub struct Bins {
    /// How many samples fell into each bin.
    pub counts: Seq<usize>,
    /// The sum of the values of each bin.
    pub sums: Seq<i64>,
    /// The sum of the squared values of each bin, held at `u128::MAX` once
    /// it has reached it.
    pub squares: Seq<u128>,
    /// The smallest value of each bin that has seen a sample.
    pub mins: Seq<i64>,
    /// The largest value of each bin that has seen a sample.
    pub maxs: Seq<i64>,
}

/// The aggregates of `n` bins that have seen no sample.
pub open spec fn empty_bins(n: nat) -> Bins {
    Bins {
        counts: Seq::new(n, |i: int| 0usize),
        sums: Seq::new(n, |i: int| 0i64),
        squares: Seq::new(n, |i: int| 0u128),
        mins: Seq::new(n, |i: int| 0i64),
        maxs: Seq::new(n, |i: int| 0i64),
    }
}

/// All five sequences have `n` entries.
pub open spec fn sized(b: Bins, n: nat) -> bool {
    &&& b.counts.len() == n
    &&& b.sums.len() == n
    &&& b.squares.len() == n
    &&& b.mins.len() == n
    &&& b.maxs.len() == n
}

/// The count and the sum of bin `p` can take one more sample of value `v`
/// without leaving their machine types.
pub open spec fn fits(b: Bins, p: int, v: i64) -> bool {
    &&& b.counts[p] + 1 <= usize::MAX
    &&& i64::MIN <= b.sums[p] + v <= i64::MAX
}

/// `x`, held at `u128::MAX` where it is larger.
pub open spec fn capped(x: int) -> u128 {
    if x > u128::MAX {
        u128::MAX
    } else {
        x as u128
    }
}

/// A sum of squares `q` after one more value `v`, held at `u128::MAX`.
pub open spec fn next_squares(q: u128, v: i64) -> u128 {
    capped(q + v * v)
}

/// Two sums of squares added, held at `u128::MAX`.
pub open spec fn joined_squares(x: u128, y: u128) -> u128 {
    capped(x + y)
}

/// The aggregates after bin `p` took a sample of value `v`.
pub open spec fn record(b: Bins, p: int, v: i64) -> Bins {
    Bins {
        counts: b.counts.update(p, (b.counts[p] + 1) as usize),
        sums: b.sums.update(p, (b.sums[p] + v) as i64),
        squares: b.squares.update(p, next_squares(b.squares[p], v)),
        mins: b.mins.update(
            p,
            if b.counts[p] == 0 || v < b.mins[p] {
                v
            } else {
                b.mins[p]
            },
        ),
        maxs: b.maxs.update(
            p,
            if b.counts[p] == 0 || v > b.maxs[p] {
                v
            } else {
                b.maxs[p]
            },
        ),
    }
}

/// The place, in logical order, of the bin of the grid that holds `sample`.
pub open spec fn bin_place(axes: Seq<Seq<i64>>, sample: Seq<i64>) -> Option<int> {
    match bin_index(axes, sample) {
        Some(idx) => Some(position(shape_of(axes), idx) as int),
        None => None,
    }
}

/// A sample is accepted when the grid holds it and the count and the sum of
/// its bin can take it.
pub open spec fn accepted(axes: Seq<Seq<i64>>, b: Bins, sample: Seq<i64>, v: i64) -> bool {
    match bin_place(axes, sample) {
        Some(p) => fits(b, p, v),
        None => false,
    }
}

/// The aggregates after one sample was offered: recorded where it is
/// accepted, unchanged otherwise.
pub open spec fn offer(axes: Seq<Seq<i64>>, b: Bins, sample: Seq<i64>, v: i64) -> Bins {
    if accepted(axes, b, sample, v) {
        record(b, bin_place(axes, sample)->0, v)
    } else {
        b
    }
}

/// The aggregates after a run of samples was offered in order, each with the
/// value at its place.
pub open spec fn feed(
    axes: Seq<Seq<i64>>,
    b: Bins,
    samples: Seq<Seq<i64>>,
    values: Seq<i64>,
) -> Bins
    decreases samples.len(),
{
    if samples.len() == 0 || values.len() != samples.len() {
        b
    } else {
        offer(
            axes,
            feed(axes, b, samples.drop_last(), values.drop_last()),
            samples.last(),
            values.last(),
        )
    }
}

/// How many samples of a run are accepted.
pub open spec fn accepted_count(
    axes: Seq<Seq<i64>>,
    b: Bins,
    samples: Seq<Seq<i64>>,
    values: Seq<i64>,
) -> nat
    decreases samples.len(),
{
    if samples.len() == 0 || values.len() != samples.len() {
        0
    } else {
        let before = feed(axes, b, samples.drop_last(), values.drop_last());
        accepted_count(axes, b, samples.drop_last(), values.drop_last()) + if accepted(
            axes,
            before,
            samples.last(),
            values.last(),
        ) {
            1nat
        } else {
            0nat
        }
    }
}

/// No sample of the run is turned away by a bin that the grid finds for it:
/// every sample is either outside the grid or accepted.
pub open spec fn never_full(
    axes: Seq<Seq<i64>>,
    b: Bins,
    samples: Seq<Seq<i64>>,
    values: Seq<i64>,
) -> bool
    decreases samples.len(),
{
    if samples.len() == 0 || values.len() != samples.len() {
        true
    } else {
        &&& never_full(axes, b, samples.drop_last(), values.drop_last())
        &&& bin_place(axes, samples.last()) is Some ==> fits(
            feed(axes, b, samples.drop_last(), values.drop_last()),
            bin_place(axes, samples.last())->0,
            values.last(),
        )
    }
}

/// How many samples of a run lie inside the grid.
pub open spec fn inside_count(axes: Seq<Seq<i64>>, samples: Seq<Seq<i64>>) -> nat
    decreases samples.len(),
{
    if samples.len() == 0 {
        0
    } else {
        inside_count(axes, samples.drop_last()) + if bin_place(axes, samples.last()) is Some {
            1nat
        } else {
            0nat
        }
    }
}

/// The values, in order, of the samples of a run that lie in bin `p`.
pub open spec fn values_in_bin(
    axes: Seq<Seq<i64>>,
    samples: Seq<Seq<i64>>,
    values: Seq<i64>,
    p: int,
) -> Seq<i64>
    decreases samples.len(),
{
    if samples.len() == 0 || values.len() != samples.len() {
        Seq::empty()
    } else {
        let earlier = values_in_bin(axes, samples.drop_last(), values.drop_last(), p);
        if bin_place(axes, samples.last()) == Some(p) {
            earlier.push(values.last())
        } else {
            earlier
        }
    }
}

/// The sum of a run of values.
pub open spec fn seq_sum(v: Seq<i64>) -> int
    decreases v.len(),
{
    if v.len() == 0 {
        0
    } else {
        seq_sum(v.drop_last()) + v.last()
    }
}

/// The sum of the squares of a run of values.
pub open spec fn seq_squares(v: Seq<i64>) -> int
    decreases v.len(),
{
    if v.len() == 0 {
        0
    } else {
        seq_squares(v.drop_last()) + v.last() * v.last()
    }
}

/// The count of bin `p` is the number of samples of the run that lie in it,
/// and its sum is the sum of their values.
pub open spec fn bin_matches_rows(
    axes: Seq<Seq<i64>>,
    b: Bins,
    samples: Seq<Seq<i64>>,
    values: Seq<i64>,
    p: int,
) -> bool {
    &&& b.counts[p] == values_in_bin(axes, samples, values, p).len()
    &&& b.sums[p] == seq_sum(values_in_bin(axes, samples, values, p))
}

/// The sum of all counts.
pub open spec fn total(counts: Seq<usize>) -> nat
    decreases counts.len(),
{
    if counts.len() == 0 {
        0
    } else {
        total(counts.drop_last()) + counts.last() as nat
    }
}

/// Two sets of aggregates of equal size can be merged: no count and no sum
/// leaves its machine type.
pub open spec fn mergeable(a: Bins, b: Bins) -> bool {
    forall|i: int|
        0 <= i < a.counts.len() ==> {
            &&& (#[trigger] a.counts[i]) + b.counts[i] <= usize::MAX
            &&& i64::MIN <= a.sums[i] + b.sums[i] <= i64::MAX
        }
}

/// The smallest value of bin `i` of two sets of aggregates taken together.
pub open spec fn merged_min(a: Bins, b: Bins, i: int) -> i64 {
    if a.counts[i] == 0 {
        b.mins[i]
    } else if b.counts[i] == 0 || a.mins[i] <= b.mins[i] {
        a.mins[i]
    } else {
        b.mins[i]
    }
}

/// The largest value of bin `i` of two sets of aggregates taken together.
pub open spec fn merged_max(a: Bins, b: Bins, i: int) -> i64 {
    if a.counts[i] == 0 {
        b.maxs[i]
    } else if b.counts[i] == 0 || a.maxs[i] >= b.maxs[i] {
        a.maxs[i]
    } else {
        b.maxs[i]
    }
}

/// Two sets of aggregates over the same bins, merged: counts and sums add bin
/// by bin, sums of squares add up to `u128::MAX`, and the extrema are those of
/// both.
pub open spec fn merged(a: Bins, b: Bins) -> Bins {
    Bins {
        counts: Seq::new(a.counts.len(), |i: int| (a.counts[i] + b.counts[i]) as usize),
        sums: Seq::new(a.sums.len(), |i: int| (a.sums[i] + b.sums[i]) as i64),
        squares: Seq::new(a.squares.len(), |i: int| joined_squares(a.squares[i], b.squares[i])),
        mins: Seq::new(a.mins.len(), |i: int| merged_min(a, b, i)),
        maxs: Seq::new(a.maxs.len(), |i: int| merged_max(a, b, i)),
    }
}

/// An exact fraction `num / den`.
#[derive(Clone, Copy, Debug, PartialEq, Eq)]
pub struct Ratio {
    /// The numerator.
    pub num: i128,
    /// The denominator, never zero in a fraction that the library gives.
    pub den: u128,
}

/// The mean of bin `p`: its sum over its count, absent while the bin has seen
/// no sample.
pub open spec fn mean_of(b: Bins, p: int) -> Option<Ratio> {
    if b.counts[p] == 0 {
        None
    } else {
        Some(Ratio { num: b.sums[p] as i128, den: b.counts[p] as u128 })
    }
}

/// The smallest value of bin `p`, absent while the bin has seen no sample.
pub open spec fn min_of(b: Bins, p: int) -> Option<i64> {
    if b.counts[p] == 0 {
        None
    } else {
        Some(b.mins[p])
    }
}

/// The largest value of bin `p`, absent while the bin has seen no sample.
pub open spec fn max_of(b: Bins, p: int) -> Option<i64> {
    if b.counts[p] == 0 {
        None
    } else {
        Some(b.maxs[p])
    }
}

/// Why a variance cannot be given.
#[derive(Clone, Copy, Debug, PartialEq, Eq)]
pub enum StatError {
    /// A bin has seen samples, but fewer than the degrees of freedom that the
    /// variance gives up.
    InvalidDegreesOfFreedom,
    /// The accumulators of a bin give a negative variance.
    NegativeVariance,
    /// The variance of a bin is a fraction whose numerator does not fit
    /// `i128`.
    VarianceTooLarge,
}

/// The variance of `n` values with sum `s` and sum of squares `q`, with `ddof`
/// degrees of freedom given up: the sum of the squared deviations from the
/// mean, `q - s * s / n`, over `n - ddof`, as the exact fraction
/// `(n * q - s * s) / (n * (n - ddof))`.
///
/// It is absent for no values, defined as zero where `n == ddof`, and an
/// error where `n < ddof`, where the fraction would be negative, or where its
/// numerator does not fit `i128`.
pub open spec fn variance_from_sums(n: usize, s: i64, q: u128, ddof: usize) -> Result<
    Option<Ratio>,
    StatError,
> {
    if n == 0 {
        Ok(None)
    } else if n < ddof {
        Err(StatError::InvalidDegreesOfFreedom)
    } else if n == ddof {
        Ok(Some(Ratio { num: 0, den: 1 }))
    } else if n * q - s * s < 0 {
        Err(StatError::NegativeVariance)
    } else if n * q - s * s > i128::MAX {
        Err(StatError::VarianceTooLarge)
    } else {
        Ok(Some(Ratio { num: (n * q - s * s) as i128, den: (n * (n - ddof)) as u128 }))
    }
}

/// The variance of bin `p`.
pub open spec fn variance_of(b: Bins, ddof: usize, p: int) -> Result<Option<Ratio>, StatError> {
    variance_from_sums(b.counts[p], b.sums[p], b.squares[p], ddof)
}

/// The number of bins of a grid with the given axes.
pub open spec fn bin_total(axes: Seq<Seq<i64>>) -> nat {
    cell_total(shape_of(axes))
}

} // verus!
