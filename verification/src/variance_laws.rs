//! What the accumulators of a bin are in terms of the values that the bin
//! took, and why the variance computed from them is the variance of those
//! values.
use vstd::prelude::*;
use crate::grid::valid_axes;
use crate::laws::{lemma_bin_place_in_range, lemma_counts_sum_to_accepted};
use crate::model::{
    accepted, bin_place, bin_total, capped, empty_bins, feed, max_of, mean_of, min_of, never_full,
    next_squares, offer, record, seq_squares, seq_sum, sized, values_in_bin, variance_from_sums,
    variance_of, Bins, Ratio, StatError,
};

verus! {

/// The sum of the squared deviations of the values from `s / n`, scaled by
/// `n * n` so that it stays whole: the sum of `(n * x - s)^2` over the values
/// `x`.
pub open spec fn scaled_deviations(v: Seq<i64>, n: int, s: int) -> int
    decreases v.len(),
{
    if v.len() == 0 {
        0
    } else {
        scaled_deviations(v.drop_last(), n, s) + (n * v.last() - s) * (n * v.last() - s)
    }
}

/// A bin that has seen no sample has no mean, no variance and no extrema, and
/// a bin that has seen one has a mean and extrema: the statistics of a bin
/// are absent together.
pub proof fn lemma_absent_together(b: Bins, ddof: usize, p: int)
    ensures
        b.counts[p] == 0 <==> mean_of(b, p) is None,
        b.counts[p] == 0 <==> min_of(b, p) is None,
        b.counts[p] == 0 <==> max_of(b, p) is None,
        b.counts[p] == 0 <==> variance_of(b, ddof, p) == Ok::<Option<Ratio>, StatError>(None),
{
}

/// Every mean and every variance that is present is a fraction with a
/// positive denominator, and a variance is never a negative fraction.
pub proof fn lemma_fractions_are_proper(b: Bins, ddof: usize, p: int)
    ensures
        mean_of(b, p) is Some ==> (mean_of(b, p)->0).den > 0,
        variance_of(b, ddof, p) matches Ok(Some(r)) ==> r.den > 0 && r.num >= 0,
{
    let n = b.counts[p] as int;
    let k = n - ddof;
    if n > ddof {
        assert(0 < n * k <= 0xffff_ffff_ffff_ffff_ffff_ffff_ffff_ffff) by (nonlinear_arith)
            requires
                0 < k <= n <= 0xffff_ffff_ffff_ffff,
        ;
    }
}

/// Squared deviations are not negative, and they expand into the sums that a
/// bin keeps.
pub proof fn lemma_deviations_expand(v: Seq<i64>, n: int, s: int)
    ensures
        scaled_deviations(v, n, s) >= 0,
        scaled_deviations(v, n, s) == n * n * seq_squares(v) - 2 * n * s * seq_sum(v) + v.len()
            * s * s,
    decreases v.len(),
{
    if v.len() > 0 {
        let w = v.drop_last();
        let x = v.last() as int;
        lemma_deviations_expand(w, n, s);
        let d = scaled_deviations(w, n, s);
        let q = seq_squares(w);
        let t = seq_sum(w);
        let k = w.len() as int;
        let xx = x * x;
        assert((n * x - s) * (n * x - s) >= 0) by (nonlinear_arith);
        assert((n * x - s) * (n * x - s) == n * n * xx - 2 * n * s * x + s * s)
            by (nonlinear_arith)
            requires
                xx == x * x,
        ;
        assert(n * n * (q + xx) == n * n * q + n * n * xx) by (nonlinear_arith);
        assert(2 * n * s * (t + x) == 2 * n * s * t + 2 * n * s * x) by (nonlinear_arith);
        assert((k + 1) * s * s == k * s * s + s * s) by (nonlinear_arith);
    }
}

/// For any run of values with count `n`, sum `s` and sum of squares `q`, the
/// quantity `n * q - s * s` from which the variance is computed is the sum of
/// the squared deviations from the mean, scaled by `n`: it is never negative,
/// and `(n * q - s * s) / (n * n)` is the two-pass population variance.
pub proof fn lemma_one_pass_is_two_pass(v: Seq<i64>)
    ensures
        ({
            let n = v.len() as int;
            let s = seq_sum(v);
            let q = seq_squares(v);
            &&& n * (n * q - s * s) == scaled_deviations(v, n, s)
            &&& n * q - s * s >= 0
        }),
{
    let n = v.len() as int;
    let s = seq_sum(v);
    let q = seq_squares(v);
    lemma_deviations_expand(v, n, s);
    let d = scaled_deviations(v, n, s);
    assert(n * (n * q - s * s) == d) by (nonlinear_arith)
        requires
            d == n * n * q - 2 * n * s * s + n * s * s,
    ;
    if n > 0 {
        assert(n * q - s * s >= 0) by (nonlinear_arith)
            requires
                n > 0,
                n * (n * q - s * s) >= 0,
        ;
    } else {
        assert(s == 0);
        assert(n * q - s * s == 0) by (nonlinear_arith)
            requires
                n == 0,
                s == 0,
        ;
    }
}

/// The sum of the squares of any values is not negative.
pub proof fn lemma_squares_not_negative(v: Seq<i64>)
    ensures
        seq_squares(v) >= 0,
    decreases v.len(),
{
    if v.len() > 0 {
        lemma_squares_not_negative(v.drop_last());
        let x = v.last() as int;
        assert(x * x >= 0) by (nonlinear_arith);
    }
}

/// In a store built from a run in which no count and no sum leaves its
/// machine type, the count of a bin is the number of samples that lie in it,
/// its sum is the sum of their values, and its sum of squares is the sum of
/// their squares, held at `u128::MAX`.
pub proof fn lemma_bin_holds_its_values(
    axes: Seq<Seq<i64>>,
    samples: Seq<Seq<i64>>,
    values: Seq<i64>,
    p: int,
)
    requires
        valid_axes(axes),
        0 <= p < bin_total(axes),
        samples.len() == values.len(),
        never_full(axes, empty_bins(bin_total(axes)), samples, values),
    ensures
        ({
            let b = feed(axes, empty_bins(bin_total(axes)), samples, values);
            let v = values_in_bin(axes, samples, values, p);
            &&& sized(b, bin_total(axes))
            &&& b.counts[p] == v.len()
            &&& b.sums[p] == seq_sum(v)
            &&& b.squares[p] == capped(seq_squares(v))
        }),
    decreases samples.len(),
{
    let start = empty_bins(bin_total(axes));
    lemma_counts_sum_to_accepted(axes, start, samples, values);
    lemma_squares_not_negative(values_in_bin(axes, samples, values, p));
    if samples.len() != 0 {
        let s0 = samples.drop_last();
        let v0 = values.drop_last();
        let x = samples.last();
        let val = values.last();
        lemma_bin_holds_its_values(axes, s0, v0, p);
        lemma_counts_sum_to_accepted(axes, start, s0, v0);
        let before = feed(axes, start, s0, v0);
        let earlier = values_in_bin(axes, s0, v0, p);
        lemma_squares_not_negative(earlier);
        let b = feed(axes, start, samples, values);
        assert(b == offer(axes, before, x, val));
        if bin_place(axes, x) is Some {
            lemma_bin_place_in_range(axes, x);
            let place = bin_place(axes, x)->0;
            assert(accepted(axes, before, x, val));
            assert(b == record(before, place, val));
            assert(val * val >= 0) by (nonlinear_arith);
            if place == p {
                assert(earlier.push(val).drop_last() =~= earlier);
                assert(b.squares[p] == next_squares(before.squares[p], val));
            }
        }
    }
}

/// In a store built from a run in which no count and no sum leaves its
/// machine type, a bin that holds samples has as its mean the sum of their
/// values over their number. With fewer degrees of freedom given up than it
/// holds samples, its variance is the fraction
/// `(n * q - s * s) / (n * (n - ddof))` of their count `n`, sum `s` and sum of
/// squares `q` whenever the numerator fits `i128`, and the error of a variance
/// too large exactly when it does not. With no degrees of freedom given up
/// that fraction is, by `lemma_one_pass_is_two_pass`, their population
/// variance. No such bin reports a negative variance.
pub proof fn lemma_bin_mean_and_variance(
    axes: Seq<Seq<i64>>,
    samples: Seq<Seq<i64>>,
    values: Seq<i64>,
    p: int,
    ddof: usize,
)
    requires
        valid_axes(axes),
        0 <= p < bin_total(axes),
        samples.len() == values.len(),
        never_full(axes, empty_bins(bin_total(axes)), samples, values),
        values_in_bin(axes, samples, values, p).len() > ddof,
    ensures
        ({
            let b = feed(axes, empty_bins(bin_total(axes)), samples, values);
            let v = values_in_bin(axes, samples, values, p);
            let n = v.len() as int;
            let s = seq_sum(v);
            let q = seq_squares(v);
            &&& mean_of(b, p) == Some(Ratio { num: s as i128, den: n as u128 })
            &&& s as i128 == s
            &&& n as u128 == n
            &&& n * q - s * s >= 0
            &&& n * q - s * s <= i128::MAX ==> variance_of(b, ddof, p) == Ok::<
                Option<Ratio>,
                StatError,
            >(Some(Ratio { num: (n * q - s * s) as i128, den: (n * (n - ddof)) as u128 }))
            &&& (n * (n - ddof)) as u128 == n * (n - ddof)
            &&& (n * q - s * s) * n == scaled_deviations(v, n, s)
            &&& n * q - s * s > i128::MAX ==> variance_of(b, ddof, p) == Err::<
                Option<Ratio>,
                StatError,
            >(StatError::VarianceTooLarge)
        }),
{
    let b = feed(axes, empty_bins(bin_total(axes)), samples, values);
    let v = values_in_bin(axes, samples, values, p);
    let n = v.len() as int;
    let s = seq_sum(v);
    let q = seq_squares(v);
    let k = n - ddof;
    lemma_bin_holds_its_values(axes, samples, values, p);
    lemma_one_pass_is_two_pass(v);
    lemma_squares_not_negative(v);
    assert(n == b.counts[p] && s == b.sums[p]);
    assert(0 < n * k <= 0xffff_ffff_ffff_ffff_ffff_ffff_ffff_ffff) by (nonlinear_arith)
        requires
            0 < k <= n <= 0xffff_ffff_ffff_ffff,
    ;
    assert((n * q - s * s) * n == n * (n * q - s * s)) by (nonlinear_arith);
    assert(0 <= s * s <= 0x4000_0000_0000_0000_0000_0000_0000_0000) by (nonlinear_arith)
        requires
            -0x8000_0000_0000_0000 <= s <= 0x7fff_ffff_ffff_ffff,
    ;
    let stored = b.squares[p] as int;
    if q > u128::MAX {
        assert(stored == u128::MAX);
        assert(n * q >= q) by (nonlinear_arith)
            requires
                n >= 1,
                q >= 0,
        ;
        assert(n * stored >= stored) by (nonlinear_arith)
            requires
                n >= 1,
                stored >= 0,
        ;
    } else {
        assert(stored == q);
    }
}

/// Taking one more value `x` into a bin of `n` values with sum `s` and sum of
/// squares `q` changes `n * q - s * s` as the one-pass update of the sum of
/// squared deviations says: scaled by the counts, the new sum of squared
/// deviations is the old one plus the square of the new value's deviation
/// from the old mean.
pub proof fn lemma_incremental_update(n: int, s: int, q: int, x: int)
    ensures
        n * ((n + 1) * (q + x * x) - (s + x) * (s + x)) == (n + 1) * (n * q - s * s) + (n * x - s)
            * (n * x - s),
{
    let a = n * q;
    let b = x * x;
    let c = s * s;
    let d = s * x;
    let e = n * x;
    assert((s + x) * (s + x) == c + 2 * d + b) by (nonlinear_arith)
        requires
            b == x * x,
            c == s * s,
            d == s * x,
    ;
    assert((n + 1) * (q + b) == a + n * b + q + b) by (nonlinear_arith)
        requires
            a == n * q,
    ;
    assert((e - s) * (e - s) == e * e - 2 * (e * s) + c) by (nonlinear_arith)
        requires
            c == s * s,
    ;
    assert(e * e == n * (n * b)) by (nonlinear_arith)
        requires
            e == n * x,
            b == x * x,
    ;
    assert(e * s == n * d) by (nonlinear_arith)
        requires
            e == n * x,
            d == s * x,
    ;
    assert(n * (a + n * b + q - c - 2 * d) == n * a + n * (n * b) + a - n * c - 2 * (n * d))
        by (nonlinear_arith)
        requires
            a == n * q,
    ;
    assert((n + 1) * (a - c) == n * a - n * c + a - c) by (nonlinear_arith);
}

/// `m` is the smallest of the values.
pub open spec fn is_smallest(m: i64, v: Seq<i64>) -> bool {
    &&& forall|k: int| 0 <= k < v.len() ==> m <= #[trigger] v[k]
    &&& exists|k: int| 0 <= k < v.len() && #[trigger] v[k] == m
}

/// `m` is the largest of the values.
pub open spec fn is_largest(m: i64, v: Seq<i64>) -> bool {
    &&& forall|k: int| 0 <= k < v.len() ==> m >= #[trigger] v[k]
    &&& exists|k: int| 0 <= k < v.len() && #[trigger] v[k] == m
}

/// In a store built from a run in which no count and no sum leaves its
/// machine type, the extrema of a bin that holds samples are the smallest and
/// the largest of their values.
pub proof fn lemma_bin_extrema(
    axes: Seq<Seq<i64>>,
    samples: Seq<Seq<i64>>,
    values: Seq<i64>,
    p: int,
)
    requires
        valid_axes(axes),
        0 <= p < bin_total(axes),
        samples.len() == values.len(),
        never_full(axes, empty_bins(bin_total(axes)), samples, values),
        values_in_bin(axes, samples, values, p).len() > 0,
    ensures
        ({
            let b = feed(axes, empty_bins(bin_total(axes)), samples, values);
            let v = values_in_bin(axes, samples, values, p);
            &&& min_of(b, p) == Some(b.mins[p])
            &&& max_of(b, p) == Some(b.maxs[p])
            &&& is_smallest(b.mins[p], v)
            &&& is_largest(b.maxs[p], v)
        }),
    decreases samples.len(),
{
    let start = empty_bins(bin_total(axes));
    let s0 = samples.drop_last();
    let v0 = values.drop_last();
    let x = samples.last();
    let val = values.last();
    let before = feed(axes, start, s0, v0);
    let earlier = values_in_bin(axes, s0, v0, p);
    let b = feed(axes, start, samples, values);
    let v = values_in_bin(axes, samples, values, p);
    lemma_bin_holds_its_values(axes, samples, values, p);
    lemma_bin_holds_its_values(axes, s0, v0, p);
    assert(b == offer(axes, before, x, val));
    if earlier.len() > 0 {
        lemma_bin_extrema(axes, s0, v0, p);
    }
    if bin_place(axes, x) == Some(p) {
        assert(accepted(axes, before, x, val));
        assert(b == record(before, p, val));
        assert(v == earlier.push(val));
        assert(v[v.len() - 1] == val);
        if earlier.len() > 0 {
            let lo = choose|k: int| 0 <= k < earlier.len() && #[trigger] earlier[k] == before.mins[p];
            let hi = choose|k: int| 0 <= k < earlier.len() && #[trigger] earlier[k] == before.maxs[p];
            assert(v[lo] == earlier[lo] && v[hi] == earlier[hi]);
            assert forall|k: int| 0 <= k < v.len() implies b.mins[p] <= #[trigger] v[k] && b.maxs[p]
                >= v[k] by {
                if k < earlier.len() {
                    assert(v[k] == earlier[k]);
                }
            }
        }
    } else {
        if bin_place(axes, x) is Some {
            lemma_bin_place_in_range(axes, x);
            assert(accepted(axes, before, x, val));
        }
        assert(v == earlier);
        assert(b.mins[p] == before.mins[p] && b.maxs[p] == before.maxs[p]);
    }
}

} // verus!
