//! What holds of the aggregates whatever samples are offered.
use vstd::prelude::*;
use crate::arrays::lemma_position_in_range;
use crate::grid::{bin_index, lemma_bin_index_in_bounds, shape_of, valid_axes};
use crate::model::{
    accepted, accepted_count, bin_place, bin_total, empty_bins, feed, fits, inside_count,
    joined_squares, mergeable, merged, merged_max, merged_min, never_full, next_squares,
    offer, record, sized, total, Bins,
};

verus! {

/// The place of a sample's bin lies among the bins of the grid.
pub proof fn lemma_bin_place_in_range(axes: Seq<Seq<i64>>, sample: Seq<i64>)
    requires
        valid_axes(axes),
        bin_place(axes, sample) is Some,
    ensures
        0 <= bin_place(axes, sample)->0 < bin_total(axes),
{
    lemma_bin_index_in_bounds(axes, sample);
    lemma_position_in_range(shape_of(axes), bin_index(axes, sample)->0);
}

/// Replacing one count changes the sum of all counts by the difference.
pub proof fn lemma_total_update(counts: Seq<usize>, p: int, v: usize)
    requires
        0 <= p < counts.len(),
    ensures
        total(counts.update(p, v)) == total(counts) - counts[p] + v,
    decreases counts.len(),
{
    let after = counts.update(p, v);
    if p == counts.len() - 1 {
        assert(after.drop_last() =~= counts.drop_last());
    } else {
        assert(after.drop_last() =~= counts.drop_last().update(p, v));
        lemma_total_update(counts.drop_last(), p, v);
    }
}

/// No counts sum to nothing.
pub proof fn lemma_total_zeros(n: nat)
    ensures
        total(Seq::new(n, |i: int| 0usize)) == 0,
    decreases n,
{
    if n > 0 {
        assert(Seq::new(n, |i: int| 0usize).drop_last() =~= Seq::new(
            (n - 1) as nat,
            |i: int| 0usize,
        ));
        lemma_total_zeros((n - 1) as nat);
    }
}

/// A sample that the grid does not hold, or that its bin cannot take, leaves
/// every aggregate of every bin as it was.
pub proof fn lemma_rejected_sample_changes_nothing(
    axes: Seq<Seq<i64>>,
    b: Bins,
    sample: Seq<i64>,
    v: i64,
)
    requires
        !accepted(axes, b, sample, v),
    ensures
        offer(axes, b, sample, v) == b,
{
}

/// An accepted sample changes the aggregates of its own bin and of no other.
pub proof fn lemma_accepted_sample_touches_one_bin(
    axes: Seq<Seq<i64>>,
    b: Bins,
    sample: Seq<i64>,
    v: i64,
    other: int,
)
    requires
        valid_axes(axes),
        sized(b, bin_total(axes)),
        accepted(axes, b, sample, v),
        0 <= other < bin_total(axes),
        other != bin_place(axes, sample)->0,
    ensures
        offer(axes, b, sample, v).counts[other] == b.counts[other],
        offer(axes, b, sample, v).sums[other] == b.sums[other],
        offer(axes, b, sample, v).squares[other] == b.squares[other],
        offer(axes, b, sample, v).mins[other] == b.mins[other],
        offer(axes, b, sample, v).maxs[other] == b.maxs[other],
{
    lemma_bin_place_in_range(axes, sample);
}

/// Offering one sample keeps the number of bins, and raises the sum of all
/// counts by one exactly when the sample is accepted.
pub proof fn lemma_offer_total(axes: Seq<Seq<i64>>, b: Bins, sample: Seq<i64>, v: i64)
    requires
        valid_axes(axes),
        sized(b, bin_total(axes)),
    ensures
        sized(offer(axes, b, sample, v), bin_total(axes)),
        total(offer(axes, b, sample, v).counts) == total(b.counts) + if accepted(
            axes,
            b,
            sample,
            v,
        ) {
            1nat
        } else {
            0nat
        },
{
    if accepted(axes, b, sample, v) {
        lemma_bin_place_in_range(axes, sample);
        let p = bin_place(axes, sample)->0;
        lemma_total_update(b.counts, p, (b.counts[p] + 1) as usize);
    }
}

/// After any run of samples, the counts of all bins sum to the sum before
/// the run plus the number of samples that were accepted.
pub proof fn lemma_counts_sum_to_accepted(
    axes: Seq<Seq<i64>>,
    b: Bins,
    samples: Seq<Seq<i64>>,
    values: Seq<i64>,
)
    requires
        valid_axes(axes),
        sized(b, bin_total(axes)),
    ensures
        sized(feed(axes, b, samples, values), bin_total(axes)),
        total(feed(axes, b, samples, values).counts) == total(b.counts) + accepted_count(
            axes,
            b,
            samples,
            values,
        ),
    decreases samples.len(),
{
    if samples.len() != 0 && values.len() == samples.len() {
        lemma_counts_sum_to_accepted(axes, b, samples.drop_last(), values.drop_last());
        lemma_offer_total(
            axes,
            feed(axes, b, samples.drop_last(), values.drop_last()),
            samples.last(),
            values.last(),
        );
    }
}

/// In a store built from a run of samples, the counts of all bins sum to the
/// number of samples that were accepted.
pub proof fn lemma_built_counts_sum_to_accepted(
    axes: Seq<Seq<i64>>,
    samples: Seq<Seq<i64>>,
    values: Seq<i64>,
)
    requires
        valid_axes(axes),
    ensures
        total(feed(axes, empty_bins(bin_total(axes)), samples, values).counts) == accepted_count(
            axes,
            empty_bins(bin_total(axes)),
            samples,
            values,
        ),
{
    lemma_total_zeros(bin_total(axes));
    lemma_counts_sum_to_accepted(axes, empty_bins(bin_total(axes)), samples, values);
}

/// A run in which no bin turns a sample away has no such sample in any of
/// its beginnings either.
pub proof fn lemma_never_full_prefix(
    axes: Seq<Seq<i64>>,
    b: Bins,
    samples: Seq<Seq<i64>>,
    values: Seq<i64>,
    k: int,
)
    requires
        samples.len() == values.len(),
        0 <= k <= samples.len(),
        never_full(axes, b, samples, values),
    ensures
        never_full(axes, b, samples.take(k), values.take(k)),
    decreases samples.len(),
{
    if k == samples.len() {
        assert(samples.take(k) =~= samples);
        assert(values.take(k) =~= values);
    } else {
        assert(samples.drop_last().take(k) =~= samples.take(k));
        assert(values.drop_last().take(k) =~= values.take(k));
        lemma_never_full_prefix(axes, b, samples.drop_last(), values.drop_last(), k);
    }
}

/// In a run in which no bin turns a sample away, the accepted samples are
/// those inside the grid.
pub proof fn lemma_accepted_are_inside(
    axes: Seq<Seq<i64>>,
    b: Bins,
    samples: Seq<Seq<i64>>,
    values: Seq<i64>,
)
    requires
        samples.len() == values.len(),
        never_full(axes, b, samples, values),
    ensures
        accepted_count(axes, b, samples, values) == inside_count(axes, samples),
    decreases samples.len(),
{
    if samples.len() != 0 {
        lemma_accepted_are_inside(axes, b, samples.drop_last(), values.drop_last());
    }
}

/// In a store built from a run in which no bin turns a sample away, the
/// counts of all bins sum to the number of samples inside the grid.
pub proof fn lemma_counts_sum_to_inside(
    axes: Seq<Seq<i64>>,
    samples: Seq<Seq<i64>>,
    values: Seq<i64>,
)
    requires
        valid_axes(axes),
        samples.len() == values.len(),
        never_full(axes, empty_bins(bin_total(axes)), samples, values),
    ensures
        total(feed(axes, empty_bins(bin_total(axes)), samples, values).counts) == inside_count(
            axes,
            samples,
        ),
{
    lemma_built_counts_sum_to_accepted(axes, samples, values);
    lemma_accepted_are_inside(axes, empty_bins(bin_total(axes)), samples, values);
}

/// Where every count of `c` is the sum of the counts of `a` and `b` at its
/// place, the total of `c` is the total of `a` plus the total of `b`.
pub proof fn lemma_totals_add(a: Seq<usize>, b: Seq<usize>, c: Seq<usize>)
    requires
        a.len() == c.len(),
        b.len() == c.len(),
        forall|i: int| 0 <= i < c.len() ==> #[trigger] c[i] == a[i] + b[i],
    ensures
        total(c) == total(a) + total(b),
    decreases c.len(),
{
    if c.len() > 0 {
        assert(c[c.len() - 1] == a[c.len() - 1] + b[c.len() - 1]);
        assert forall|i: int| 0 <= i < c.drop_last().len() implies #[trigger] c.drop_last()[i]
            == a.drop_last()[i] + b.drop_last()[i] by {
            assert(c[i] == a[i] + b[i]);
        }
        lemma_totals_add(a.drop_last(), b.drop_last(), c.drop_last());
    }
}

/// Merging adds the totals: the counts of a merged store sum to the sum of
/// all counts of the one plus the sum of all counts of the other.
pub proof fn lemma_merged_total(a: Bins, b: Bins, n: nat)
    requires
        sized(a, n),
        sized(b, n),
        mergeable(a, b),
    ensures
        total(merged(a, b).counts) == total(a.counts) + total(b.counts),
{
    let c = merged(a, b).counts;
    assert forall|i: int| 0 <= i < c.len() implies #[trigger] c[i] == a.counts[i]
        + b.counts[i] by {
        assert(a.counts[i] + b.counts[i] <= usize::MAX);
    }
    lemma_totals_add(a.counts, b.counts, c);
}

/// Count and sum of bin `i` of `c` are those of `a` and `b` added.
pub open spec fn adds_at(a: Bins, b: Bins, c: Bins, i: int) -> bool {
    &&& c.counts[i] == a.counts[i] + b.counts[i]
    &&& c.sums[i] == a.sums[i] + b.sums[i]
}

/// Counts and sums of `c` are, bin by bin, those of `a` and `b` added.
pub open spec fn adds_up(a: Bins, b: Bins, c: Bins) -> bool {
    forall|i: int| 0 <= i < c.counts.len() ==> #[trigger] adds_at(a, b, c, i)
}

/// The extrema and the sum of squares of bin `i` of `c` are those of `a` and
/// `b` taken together.
pub open spec fn joins_at(a: Bins, b: Bins, c: Bins, i: int) -> bool {
    &&& c.mins[i] == merged_min(a, b, i)
    &&& c.maxs[i] == merged_max(a, b, i)
    &&& c.squares[i] == joined_squares(a.squares[i], b.squares[i])
}

/// The extrema and the sums of squares of `c` are, bin by bin, those of `a`
/// and `b` taken together.
pub open spec fn extrema_join(a: Bins, b: Bins, c: Bins) -> bool {
    forall|i: int| 0 <= i < c.counts.len() ==> #[trigger] joins_at(a, b, c, i)
}

/// In aggregates fed from nothing, a bin that has taken no sample still holds
/// zero in every accumulator.
pub proof fn lemma_untouched_bin_is_zero(
    axes: Seq<Seq<i64>>,
    samples: Seq<Seq<i64>>,
    values: Seq<i64>,
    i: int,
)
    requires
        valid_axes(axes),
        0 <= i < bin_total(axes),
        feed(axes, empty_bins(bin_total(axes)), samples, values).counts[i] == 0,
    ensures
        feed(axes, empty_bins(bin_total(axes)), samples, values).sums[i] == 0,
        feed(axes, empty_bins(bin_total(axes)), samples, values).squares[i] == 0,
        feed(axes, empty_bins(bin_total(axes)), samples, values).mins[i] == 0,
        feed(axes, empty_bins(bin_total(axes)), samples, values).maxs[i] == 0,
    decreases samples.len(),
{
    let start = empty_bins(bin_total(axes));
    if samples.len() != 0 && values.len() == samples.len() {
        let s0 = samples.drop_last();
        let v0 = values.drop_last();
        let before = feed(axes, start, s0, v0);
        lemma_counts_sum_to_accepted(axes, start, s0, v0);
        if accepted(axes, before, samples.last(), values.last()) {
            lemma_bin_place_in_range(axes, samples.last());
        }
        lemma_untouched_bin_is_zero(axes, s0, v0, i);
    }
}

/// Feeding one store the samples of a first run and then those of a second
/// gives, bin by bin, the counts and sums of two stores added, one fed the
/// first run and one the second, and the extrema and sums of squares of both
/// taken together, as long as no bin turns a sample away in the second run or
/// in the two runs taken together.
pub proof fn lemma_concatenation_adds_up(
    axes: Seq<Seq<i64>>,
    first: Seq<Seq<i64>>,
    first_values: Seq<i64>,
    second: Seq<Seq<i64>>,
    second_values: Seq<i64>,
)
    requires
        valid_axes(axes),
        first.len() == first_values.len(),
        second.len() == second_values.len(),
        never_full(axes, empty_bins(bin_total(axes)), second, second_values),
        never_full(
            axes,
            empty_bins(bin_total(axes)),
            first + second,
            first_values + second_values,
        ),
    ensures
        ({
            let start = empty_bins(bin_total(axes));
            let a = feed(axes, start, first, first_values);
            let b = feed(axes, start, second, second_values);
            let c = feed(axes, start, first + second, first_values + second_values);
            &&& sized(a, bin_total(axes))
            &&& sized(b, bin_total(axes))
            &&& sized(c, bin_total(axes))
            &&& adds_up(a, b, c)
            &&& extrema_join(a, b, c)
        }),
    decreases second.len(),
{
    let start = empty_bins(bin_total(axes));
    let a = feed(axes, start, first, first_values);
    lemma_counts_sum_to_accepted(axes, start, first, first_values);
    lemma_counts_sum_to_accepted(axes, start, second, second_values);
    lemma_counts_sum_to_accepted(axes, start, first + second, first_values + second_values);
    if second.len() == 0 {
        assert(first + second =~= first);
        assert(first_values + second_values =~= first_values);
        let b = feed(axes, start, second, second_values);
        assert(b == start);
        assert forall|i: int| 0 <= i < a.counts.len() implies #[trigger] adds_at(a, b, a, i) by {
            assert(b.counts[i] == 0 && b.sums[i] == 0);
        }
        assert forall|i: int| 0 <= i < a.counts.len() implies #[trigger] joins_at(a, b, a, i) by {
            assert(b.counts[i] == 0 && b.mins[i] == 0 && b.maxs[i] == 0 && b.squares[i] == 0);
            if a.counts[i] == 0 {
                lemma_untouched_bin_is_zero(axes, first, first_values, i);
            }
        }
    } else {
        let s0 = second.drop_last();
        let v0 = second_values.drop_last();
        let x = second.last();
        let v = second_values.last();
        assert((first + second).drop_last() =~= first + s0);
        assert((first_values + second_values).drop_last() =~= first_values + v0);
        assert((first + second).last() == x);
        assert((first_values + second_values).last() == v);
        lemma_concatenation_adds_up(axes, first, first_values, s0, v0);
        let b0 = feed(axes, start, s0, v0);
        let c0 = feed(axes, start, first + s0, first_values + v0);
        let b = feed(axes, start, second, second_values);
        let c = feed(axes, start, first + second, first_values + second_values);
        assert(b == offer(axes, b0, x, v));
        assert(c == offer(axes, c0, x, v));
        if bin_place(axes, x) is Some {
            lemma_bin_place_in_range(axes, x);
            let p = bin_place(axes, x)->0;
            assert(fits(b0, p, v));
            assert(fits(c0, p, v));
            assert(adds_at(a, b0, c0, p));
            assert(v * v >= 0) by (nonlinear_arith);
            assert(accepted(axes, b0, x, v));
            assert(accepted(axes, c0, x, v));
            assert(b == record(b0, p, v));
            assert(c == record(c0, p, v));
            assert forall|i: int| 0 <= i < c.counts.len() implies #[trigger] adds_at(a, b, c, i) by {
                assert(adds_at(a, b0, c0, i));
                if i == p {
                    assert(c.counts[i] == c0.counts[p] + 1);
                    assert(b.counts[i] == b0.counts[p] + 1);
                    assert(c.sums[i] == c0.sums[p] + v);
                    assert(b.sums[i] == b0.sums[p] + v);
                } else {
                    assert(c.counts[i] == c0.counts[i]);
                    assert(b.counts[i] == b0.counts[i]);
                }
            }
            assert forall|i: int| 0 <= i < c.counts.len() implies #[trigger] joins_at(a, b, c, i) by {
                assert(joins_at(a, b0, c0, i));
                assert(adds_at(a, b0, c0, i));
                if i == p {
                    assert(b.counts[i] == b0.counts[p] + 1);
                    assert(c.squares[i] == next_squares(c0.squares[p], v));
                    assert(b.squares[i] == next_squares(b0.squares[p], v));
                }
            }
        } else {
            assert(!accepted(axes, b0, x, v));
            assert(!accepted(axes, c0, x, v));
            assert(b == b0 && c == c0);
        }
    }
}

/// Where the counts and sums of `c` are those of `a` and `b` added and its
/// extrema and sums of squares those of both, `a` and `b` can be merged and
/// merging them gives `c`. Merged the other way round they give the same
/// counts, sums and sums of squares.
pub proof fn lemma_merge_gives_the_whole(a: Bins, b: Bins, c: Bins, n: nat)
    requires
        sized(a, n),
        sized(b, n),
        sized(c, n),
        adds_up(a, b, c),
        extrema_join(a, b, c),
    ensures
        mergeable(a, b),
        mergeable(b, a),
        merged(a, b) == c,
        merged(b, a).counts == c.counts,
        merged(b, a).sums == c.sums,
        merged(b, a).squares == c.squares,
{
    assert forall|i: int| 0 <= i < n implies {
        &&& (#[trigger] a.counts[i]) + b.counts[i] <= usize::MAX
        &&& i64::MIN <= a.sums[i] + b.sums[i] <= i64::MAX
    } by {
        assert(adds_at(a, b, c, i));
    }
    assert forall|i: int| 0 <= i < n implies {
        &&& (#[trigger] b.counts[i]) + a.counts[i] <= usize::MAX
        &&& i64::MIN <= b.sums[i] + a.sums[i] <= i64::MAX
    } by {
        assert(adds_at(a, b, c, i));
    }
    assert forall|i: int| 0 <= i < n implies merged(a, b).counts[i] == c.counts[i] && merged(
        a,
        b,
    ).sums[i] == c.sums[i] && merged(a, b).squares[i] == c.squares[i] && merged(b, a).counts[i]
        == c.counts[i] && merged(b, a).sums[i] == c.sums[i] && merged(b, a).squares[i]
        == c.squares[i] && merged(a, b).mins[i] == c.mins[i] && merged(a, b).maxs[i]
        == c.maxs[i] by {
        assert(adds_at(a, b, c, i));
        assert(joins_at(a, b, c, i));
    }
    assert(merged(a, b).counts =~= c.counts);
    assert(merged(a, b).sums =~= c.sums);
    assert(merged(a, b).squares =~= c.squares);
    assert(merged(a, b).mins =~= c.mins);
    assert(merged(a, b).maxs =~= c.maxs);
    assert(merged(b, a).counts =~= c.counts);
    assert(merged(b, a).sums =~= c.sums);
    assert(merged(b, a).squares =~= c.squares);
}

/// Merging is associative: where three sets of aggregates over the same bins
/// can be merged in both groupings, both groupings give the same aggregates.
pub proof fn lemma_merge_associative(a: Bins, b: Bins, c: Bins, n: nat)
    requires
        sized(a, n),
        sized(b, n),
        sized(c, n),
        mergeable(a, b),
        mergeable(merged(a, b), c),
        mergeable(b, c),
        mergeable(a, merged(b, c)),
    ensures
        merged(merged(a, b), c) == merged(a, merged(b, c)),
{
    let ab = merged(a, b);
    let bc = merged(b, c);
    let l = merged(ab, c);
    let r = merged(a, bc);
    assert forall|i: int| 0 <= i < n implies l.counts[i] == r.counts[i] && l.sums[i] == r.sums[i]
        && l.squares[i] == r.squares[i] && l.mins[i] == r.mins[i] && l.maxs[i] == r.maxs[i] by {
        let _ = a.counts[i];
        let _ = b.counts[i];
        let _ = ab.counts[i];
        assert(a.counts[i] + b.counts[i] <= usize::MAX);
        assert(b.counts[i] + c.counts[i] <= usize::MAX);
        assert(ab.counts[i] + c.counts[i] <= usize::MAX);
        assert(a.counts[i] + bc.counts[i] <= usize::MAX);
    }
    assert(l.counts =~= r.counts);
    assert(l.sums =~= r.sums);
    assert(l.squares =~= r.squares);
    assert(l.mins =~= r.mins);
    assert(l.maxs =~= r.maxs);
}

/// Two stores fed from nothing, one a first run of samples and one a second,
/// can be merged, and merging them gives the store fed the first run and
/// then the second. It has the counts, sums and sums of squares of the store
/// fed the second run and then the first. This holds as long as no count and
/// no sum leaves its machine type in either run or in the two runs taken
/// together, in either order.
pub proof fn lemma_merge_is_concatenation(
    axes: Seq<Seq<i64>>,
    first: Seq<Seq<i64>>,
    first_values: Seq<i64>,
    second: Seq<Seq<i64>>,
    second_values: Seq<i64>,
)
    requires
        valid_axes(axes),
        first.len() == first_values.len(),
        second.len() == second_values.len(),
        never_full(axes, empty_bins(bin_total(axes)), first, first_values),
        never_full(axes, empty_bins(bin_total(axes)), second, second_values),
        never_full(
            axes,
            empty_bins(bin_total(axes)),
            first + second,
            first_values + second_values,
        ),
        never_full(
            axes,
            empty_bins(bin_total(axes)),
            second + first,
            second_values + first_values,
        ),
    ensures
        ({
            let start = empty_bins(bin_total(axes));
            let a = feed(axes, start, first, first_values);
            let b = feed(axes, start, second, second_values);
            let c = feed(axes, start, first + second, first_values + second_values);
            let d = feed(axes, start, second + first, second_values + first_values);
            &&& mergeable(a, b)
            &&& mergeable(b, a)
            &&& merged(a, b) == c
            &&& merged(b, a) == d
            &&& c.counts == d.counts
            &&& c.sums == d.sums
            &&& c.squares == d.squares
        }),
{
    let n = bin_total(axes);
    let start = empty_bins(n);
    let a = feed(axes, start, first, first_values);
    let b = feed(axes, start, second, second_values);
    let c = feed(axes, start, first + second, first_values + second_values);
    let d = feed(axes, start, second + first, second_values + first_values);
    lemma_concatenation_adds_up(axes, first, first_values, second, second_values);
    lemma_concatenation_adds_up(axes, second, second_values, first, first_values);
    lemma_merge_gives_the_whole(a, b, c, n);
    lemma_merge_gives_the_whole(b, a, d, n);
}

} // verus!
