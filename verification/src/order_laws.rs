//! Why the order in which samples are offered does not change the counts and
//! the sums.
use vstd::prelude::*;
use crate::grid::valid_axes;
use crate::laws::lemma_counts_sum_to_accepted;
use crate::model::{
    bin_place, bin_total, empty_bins, feed, never_full, seq_sum, values_in_bin,
};
use crate::variance_laws::lemma_bin_holds_its_values;

verus! {

/// The sum of a run of whole numbers.
pub open spec fn term_sum(t: Seq<int>) -> int
    decreases t.len(),
{
    if t.len() == 0 {
        0
    } else {
        term_sum(t.drop_last()) + t.last()
    }
}

/// `pi` lists the places `0..pi.len()`, each once.
pub open spec fn is_rearrangement(pi: Seq<int>) -> bool {
    &&& forall|k: int| 0 <= k < pi.len() ==> 0 <= #[trigger] pi[k] < pi.len()
    &&& forall|j: int, k: int| 0 <= j < k < pi.len() ==> pi[j] != pi[k]
}

/// For each sample of a run, one where it lies in bin `p` and zero where not.
pub open spec fn count_terms(axes: Seq<Seq<i64>>, samples: Seq<Seq<i64>>, p: int) -> Seq<int> {
    Seq::new(
        samples.len(),
        |k: int|
            if bin_place(axes, samples[k]) == Some(p) {
                1int
            } else {
                0int
            },
    )
}

/// For each sample of a run, its value where it lies in bin `p` and zero
/// where not.
pub open spec fn value_terms(
    axes: Seq<Seq<i64>>,
    samples: Seq<Seq<i64>>,
    values: Seq<i64>,
    p: int,
) -> Seq<int> {
    Seq::new(
        samples.len(),
        |k: int|
            if bin_place(axes, samples[k]) == Some(p) {
                values[k] as int
            } else {
                0int
            },
    )
}

/// Taking one number out of a run lowers the sum by that number.
pub proof fn lemma_term_sum_remove(t: Seq<int>, j: int)
    requires
        0 <= j < t.len(),
    ensures
        term_sum(t.remove(j)) == term_sum(t) - t[j],
    decreases t.len(),
{
    if j == t.len() - 1 {
        assert(t.remove(j) =~= t.drop_last());
    } else {
        assert(t.remove(j).drop_last() =~= t.drop_last().remove(j));
        assert(t.remove(j).last() == t.last());
        lemma_term_sum_remove(t.drop_last(), j);
    }
}

/// A run of numbers and a rearrangement of it have the same sum.
pub proof fn lemma_rearranged_sum(t1: Seq<int>, t2: Seq<int>, pi: Seq<int>)
    requires
        t1.len() == pi.len(),
        t2.len() == pi.len(),
        is_rearrangement(pi),
        forall|k: int| 0 <= k < pi.len() ==> #[trigger] t2[k] == t1[pi[k]],
    ensures
        term_sum(t2) == term_sum(t1),
    decreases pi.len(),
{
    let n = pi.len() as int;
    if n > 0 {
        let j = pi[n - 1];
        let r1 = t1.remove(j);
        let r2 = t2.drop_last();
        let rho = Seq::new(
            (n - 1) as nat,
            |k: int|
                if pi[k] > j {
                    pi[k] - 1
                } else {
                    pi[k]
                },
        );
        assert forall|k: int| 0 <= k < rho.len() implies 0 <= #[trigger] rho[k] < rho.len() by {
            assert(0 <= pi[k] < n);
            assert(pi[k] != pi[n - 1]);
        }
        assert forall|a: int, b: int| 0 <= a < b < rho.len() implies rho[a] != rho[b] by {
            assert(pi[a] != pi[b]);
            assert(pi[a] != pi[n - 1]);
            assert(pi[b] != pi[n - 1]);
        }
        assert forall|k: int| 0 <= k < rho.len() implies #[trigger] r2[k] == r1[rho[k]] by {
            assert(t2[k] == t1[pi[k]]);
            assert(0 <= pi[k] < n);
            assert(pi[k] != pi[n - 1]);
        }
        lemma_rearranged_sum(r1, r2, rho);
        lemma_term_sum_remove(t1, j);
        assert(t2[n - 1] == t1[pi[n - 1]]);
    }
}

/// The number of samples of a run that lie in bin `p`, and the sum of their
/// values, are the sums of the run's terms for that bin.
pub proof fn lemma_bin_values_as_terms(
    axes: Seq<Seq<i64>>,
    samples: Seq<Seq<i64>>,
    values: Seq<i64>,
    p: int,
)
    requires
        samples.len() == values.len(),
    ensures
        values_in_bin(axes, samples, values, p).len() == term_sum(count_terms(axes, samples, p)),
        seq_sum(values_in_bin(axes, samples, values, p)) == term_sum(
            value_terms(axes, samples, values, p),
        ),
    decreases samples.len(),
{
    if samples.len() > 0 {
        let s0 = samples.drop_last();
        let v0 = values.drop_last();
        lemma_bin_values_as_terms(axes, s0, v0, p);
        assert(count_terms(axes, samples, p).drop_last() =~= count_terms(axes, s0, p));
        assert(value_terms(axes, samples, values, p).drop_last() =~= value_terms(
            axes,
            s0,
            v0,
            p,
        ));
        let earlier = values_in_bin(axes, s0, v0, p);
        if bin_place(axes, samples.last()) == Some(p) {
            assert(earlier.push(values.last()).drop_last() =~= earlier);
        }
    }
}

/// Two runs that hold the same samples with the same values in different
/// orders give every bin the same count and the same sum, as long as no count
/// and no sum leaves its machine type in either run.
pub proof fn lemma_order_does_not_matter(
    axes: Seq<Seq<i64>>,
    samples: Seq<Seq<i64>>,
    values: Seq<i64>,
    rearranged: Seq<Seq<i64>>,
    rearranged_values: Seq<i64>,
    pi: Seq<int>,
)
    requires
        valid_axes(axes),
        samples.len() == pi.len(),
        values.len() == pi.len(),
        rearranged.len() == pi.len(),
        rearranged_values.len() == pi.len(),
        is_rearrangement(pi),
        forall|k: int| 0 <= k < pi.len() ==> #[trigger] rearranged[k] == samples[pi[k]],
        forall|k: int| 0 <= k < pi.len() ==> #[trigger] rearranged_values[k] == values[pi[k]],
        never_full(axes, empty_bins(bin_total(axes)), samples, values),
        never_full(axes, empty_bins(bin_total(axes)), rearranged, rearranged_values),
    ensures
        feed(axes, empty_bins(bin_total(axes)), rearranged, rearranged_values).counts == feed(
            axes,
            empty_bins(bin_total(axes)),
            samples,
            values,
        ).counts,
        feed(axes, empty_bins(bin_total(axes)), rearranged, rearranged_values).sums == feed(
            axes,
            empty_bins(bin_total(axes)),
            samples,
            values,
        ).sums,
{
    let start = empty_bins(bin_total(axes));
    let a = feed(axes, start, samples, values);
    let b = feed(axes, start, rearranged, rearranged_values);
    lemma_counts_sum_to_accepted(axes, start, samples, values);
    lemma_counts_sum_to_accepted(axes, start, rearranged, rearranged_values);
    assert forall|p: int| 0 <= p < bin_total(axes) implies a.counts[p] == b.counts[p] && a.sums[p]
        == b.sums[p] by {
        lemma_bin_holds_its_values(axes, samples, values, p);
        lemma_bin_holds_its_values(axes, rearranged, rearranged_values, p);
        lemma_bin_values_as_terms(axes, samples, values, p);
        lemma_bin_values_as_terms(axes, rearranged, rearranged_values, p);
        let c1 = count_terms(axes, samples, p);
        let c2 = count_terms(axes, rearranged, p);
        let v1 = value_terms(axes, samples, values, p);
        let v2 = value_terms(axes, rearranged, rearranged_values, p);
        assert forall|k: int| 0 <= k < pi.len() implies #[trigger] c2[k] == c1[pi[k]] by {
            assert(rearranged[k] == samples[pi[k]]);
            assert(0 <= pi[k] < pi.len());
        }
        assert forall|k: int| 0 <= k < pi.len() implies #[trigger] v2[k] == v1[pi[k]] by {
            assert(rearranged[k] == samples[pi[k]]);
            assert(rearranged_values[k] == values[pi[k]]);
            assert(0 <= pi[k] < pi.len());
        }
        lemma_rearranged_sum(c1, c2, pi);
        lemma_rearranged_sum(v1, v2, pi);
    }
    assert(a.counts =~= b.counts);
    assert(a.sums =~= b.sums);
}

} // verus!
