//! The store of per-bin aggregates over a grid, its online update and its
//! merge.
use vstd::prelude::*;
use crate::arrays::{
    count_cells, count_dims, count_get, count_set, count_sum, count_to_vec, count_zeros,
    in_bounds, lemma_position_in_range, position, square_cells, square_dims, square_from_vec,
    square_get, square_set, square_to_vec, square_zeros, value_cells, value_dims, value_from_vec,
    value_get, value_set, value_sum, value_to_vec, value_zeros, CountArray, SquareArray,
    ValueArray,
};
use crate::grid::{bin_index, nested_view, shape_of, Grid};
use crate::laws::{lemma_counts_sum_to_inside, lemma_never_full_prefix, lemma_offer_total};
use crate::model::{
    accepted, bin_place, bin_total, empty_bins, feed, inside_count, joined_squares, max_of,
    mean_of, mergeable, merged, merged_max, merged_min, min_of, never_full, offer, sized, total,
    bin_matches_rows, variance_of, Bins, Ratio, StatError,
};
use crate::variance_laws::lemma_bin_holds_its_values;
use crate::moments::{mean_from_sums, square_of, variance_from};

verus! {

/// Why a sample was not recorded.
#[derive(Clone, Copy, Debug, PartialEq, Eq)]
pub enum SampleError {
    /// The sample lies outside every bin of the grid.
    BinNotFound,
    /// The sample's bin cannot take it: its count or its sum would leave its
    /// machine type.
    Overflow,
}

/// Why two stores were not merged.
#[derive(Clone, Copy, Debug, PartialEq, Eq)]
pub enum MergeError {
    /// The two stores stand over different grids.
    GridMismatch,
    /// In some bin the merged count or sum would leave its machine type.
    Overflow,
}

/// Running statistics of the values of a stream of samples, kept apart for
/// each bin of a grid.
pub struct BinnedStatistic {
    grid: Grid,
    ddof: usize,
    counts: CountArray,
    sum: ValueArray,
    squares: SquareArray,
    min: ValueArray,
    max: ValueArray,
}

impl View for BinnedStatistic {
    type V = Bins;

    /// The aggregates of every bin, in the logical order of the bins.
    closed spec fn view(&self) -> Bins {
        Bins {
            counts: count_cells(self.counts),
            sums: value_cells(self.sum),
            squares: square_cells(self.squares),
            mins: value_cells(self.min),
            maxs: value_cells(self.max),
        }
    }
}

impl BinnedStatistic {
    /// The edges of each axis of the grid that the store was built over.
    pub closed spec fn axes(&self) -> Seq<Seq<i64>> {
        self.grid@
    }

    /// The degrees of freedom that a variance gives up.
    pub closed spec fn spec_ddof(&self) -> usize {
        self.ddof
    }

    /// The store is well formed: its grid is, and every array has the grid's
    /// shape.
    pub closed spec fn wf(&self) -> bool {
        &&& self.grid.wf()
        &&& count_dims(self.counts) == shape_of(self.grid@)
        &&& value_dims(self.sum) == shape_of(self.grid@)
        &&& square_dims(self.squares) == shape_of(self.grid@)
        &&& value_dims(self.min) == shape_of(self.grid@)
        &&& value_dims(self.max) == shape_of(self.grid@)
        &&& sized(self@, bin_total(self.grid@))
    }

    /// A well-formed store stands over a grid that `Grid` accepts and holds
    /// one entry of each aggregate per bin.
    pub proof fn lemma_wf(&self)
        requires
            self.wf(),
        ensures
            Grid::accepts(self.axes()),
            sized(self@, bin_total(self.axes())),
    {
        self.grid.lemma_wf();
    }

    /// A store over `grid` in which no bin has seen a sample, with no degrees
    /// of freedom given up.
    pub fn new(grid: Grid) -> (r: Self)
        requires
            grid.wf(),
        ensures
            r.wf(),
            r.axes() == grid@,
            r.spec_ddof() == 0,
            r@ == empty_bins(bin_total(grid@)),
    {
        Self::with_ddof(grid, 0)
    }

    /// A store over `grid` in which no bin has seen a sample, whose variances
    /// give up `ddof` degrees of freedom.
    pub fn with_ddof(grid: Grid, ddof: usize) -> (r: Self)
        requires
            grid.wf(),
        ensures
            r.wf(),
            r.axes() == grid@,
            r.spec_ddof() == ddof,
            r@ == empty_bins(bin_total(grid@)),
    {
        proof {
            grid.lemma_wf();
        }
        let counts = count_zeros(grid.shape());
        let sum = value_zeros(grid.shape());
        let squares = square_zeros(grid.shape());
        let min = value_zeros(grid.shape());
        let max = value_zeros(grid.shape());
        BinnedStatistic { grid, ddof, counts, sum, squares, min, max }
    }

    /// Offers one sample: a point with one coordinate per axis, and a value.
    ///
    /// Where the grid holds the point and the bin's count and sum can take the
    /// value, the bin's count, sum, sum of squares and extrema take it in and
    /// every other bin stays. The sum of squares is held at `u128::MAX` once
    /// it reaches it and refuses nothing. Otherwise nothing changes, and the
    /// error says why.
    pub fn add_sample(&mut self, sample: &Vec<i64>, value: i64) -> (r: Result<(), SampleError>)
        requires
            old(self).wf(),
            sample@.len() == old(self).axes().len(),
        ensures
            final(self).wf(),
            final(self).axes() == old(self).axes(),
            final(self).spec_ddof() == old(self).spec_ddof(),
            final(self)@ == offer(old(self).axes(), old(self)@, sample@, value),
            r is Ok <==> accepted(old(self).axes(), old(self)@, sample@, value),
            r is Err ==> final(self)@ == old(self)@,
            total(final(self)@.counts) == total(old(self)@.counts) + if r is Ok {
                1nat
            } else {
                0nat
            },
            r == Err::<(), SampleError>(SampleError::BinNotFound) <==> bin_index(
                old(self).axes(),
                sample@,
            ) is None,
            r == Err::<(), SampleError>(SampleError::Overflow) <==> bin_index(
                old(self).axes(),
                sample@,
            ) is Some && !accepted(old(self).axes(), old(self)@, sample@, value),
    {
        proof {
            self.grid.lemma_wf();
            lemma_offer_total(self.grid@, self@, sample@, value);
        }
        let found = self.grid.index_of(sample);
        let idx = match found {
            Some(idx) => idx,
            None => {
                return Err(SampleError::BinNotFound);
            },
        };
        proof {
            lemma_position_in_range(shape_of(self.grid@), idx@);
        }
        let ghost p = position(shape_of(self.grid@), idx@) as int;
        assert(bin_place(self.grid@, sample@) == Some(p));
        let n = count_get(&self.counts, &idx);
        let s = value_get(&self.sum, &idx);
        let q = square_get(&self.squares, &idx);
        let lo = value_get(&self.min, &idx);
        let hi = value_get(&self.max, &idx);
        let n1 = match n.checked_add(1) {
            Some(x) => x,
            None => {
                return Err(SampleError::Overflow);
            },
        };
        let s1 = match s.checked_add(value) {
            Some(x) => x,
            None => {
                return Err(SampleError::Overflow);
            },
        };
        let q1: u128 = match q.checked_add(square_of(value)) {
            Some(x) => x,
            None => u128::MAX,
        };
        let lo1 = if n == 0 || value < lo { value } else { lo };
        let hi1 = if n == 0 || value > hi { value } else { hi };
        count_set(&mut self.counts, &idx, n1);
        value_set(&mut self.sum, &idx, s1);
        square_set(&mut self.squares, &idx, q1);
        value_set(&mut self.min, &idx, lo1);
        value_set(&mut self.max, &idx, hi1);
        Ok(())
    }

    /// Builds a store over `grid` and offers it every row of `samples` in
    /// order, each with the value at its place. Rows outside the grid are
    /// passed over. Where a row inside the grid cannot be taken, because the
    /// count or the sum of its bin would leave its machine type, nothing is
    /// built and the error says so.
    pub fn from_samples(grid: Grid, samples: &Vec<Vec<i64>>, values: &Vec<i64>) -> (r: Result<
        Self,
        SampleError,
    >)
        requires
            grid.wf(),
            samples@.len() == values@.len(),
            forall|i: int| 0 <= i < samples@.len() ==> (#[trigger] samples@[i])@.len() == grid@.len(),
        ensures
            r is Ok <==> never_full(
                grid@,
                empty_bins(bin_total(grid@)),
                nested_view(*samples),
                values@,
            ),
            r matches Err(e) ==> e == SampleError::Overflow,
            r matches Ok(s) ==> {
                &&& s.wf()
                &&& s.axes() == grid@
                &&& s.spec_ddof() == 0
                &&& s@ == feed(grid@, empty_bins(bin_total(grid@)), nested_view(*samples), values@)
                &&& total(s@.counts) == inside_count(grid@, nested_view(*samples))
                &&& forall|p: int|
                    0 <= p < bin_total(grid@) ==> #[trigger] bin_matches_rows(
                        grid@,
                        s@,
                        nested_view(*samples),
                        values@,
                        p,
                    )
            },
    {
        let ghost axes = grid@;
        let ghost start = empty_bins(bin_total(axes));
        let ghost rows = nested_view(*samples);
        proof {
            grid.lemma_wf();
        }
        let mut store = Self::new(grid);
        let mut i: usize = 0;
        while i < samples.len()
            invariant
                store.wf(),
                axes == grid@,
                store.axes() == axes,
                store.spec_ddof() == 0,
                0 <= i <= samples.len(),
                samples@.len() == values@.len(),
                rows == nested_view(*samples),
                start == empty_bins(bin_total(axes)),
                forall|j: int| 0 <= j < samples@.len() ==> (#[trigger] samples@[j])@.len() == axes.len(),
                store@ == feed(axes, start, rows.take(i as int), values@.take(i as int)),
                never_full(axes, start, rows.take(i as int), values@.take(i as int)),
            decreases samples.len() - i,
        {
            proof {
                assert(rows.take(i + 1).drop_last() =~= rows.take(i as int));
                assert(values@.take(i + 1).drop_last() =~= values@.take(i as int));
                assert(rows.take(i + 1).last() == samples@[i as int]@);
            }
            match store.add_sample(&samples[i], values[i]) {
                Err(SampleError::Overflow) => {
                    proof {
                        assert(!never_full(axes, start, rows.take(i + 1), values@.take(i + 1)));
                        if never_full(axes, start, rows, values@) {
                            lemma_never_full_prefix(axes, start, rows, values@, i + 1);
                        }
                    }
                    return Err(SampleError::Overflow);
                },
                _ => {},
            }
            i += 1;
        }
        proof {
            assert(rows.take(i as int) =~= rows);
            assert(values@.take(i as int) =~= values@);
            lemma_counts_sum_to_inside(axes, rows, values@);
            assert forall|p: int| 0 <= p < bin_total(axes) implies #[trigger] bin_matches_rows(
                axes,
                store@,
                rows,
                values@,
                p,
            ) by {
                lemma_bin_holds_its_values(axes, rows, values@, p);
            }
        }
        Ok(store)
    }

    /// Merges two stores over the same grid into one that holds, for every
    /// bin, the samples of both: counts and sums add, sums of squares add up
    /// to `u128::MAX`, the extrema are those of both. The degrees of freedom
    /// are those of `self`.
    pub fn merge(self, other: Self) -> (r: Result<Self, MergeError>)
        requires
            self.wf(),
            other.wf(),
        ensures
            match r {
                Ok(m) => {
                    &&& self.axes() == other.axes()
                    &&& mergeable(self@, other@)
                    &&& m.wf()
                    &&& m.axes() == self.axes()
                    &&& m.spec_ddof() == self.spec_ddof()
                    &&& m@ == merged(self@, other@)
                },
                Err(MergeError::GridMismatch) => self.axes() != other.axes(),
                Err(MergeError::Overflow) => self.axes() == other.axes() && !mergeable(
                    self@,
                    other@,
                ),
            },
    {
        if !self.grid.same_as(&other.grid) {
            return Err(MergeError::GridMismatch);
        }
        let ghost a = self@;
        let ghost b = other@;
        let ca = count_to_vec(&self.counts);
        let cb = count_to_vec(&other.counts);
        let sa = value_to_vec(&self.sum);
        let sb = value_to_vec(&other.sum);
        let qa = square_to_vec(&self.squares);
        let qb = square_to_vec(&other.squares);
        let la = value_to_vec(&self.min);
        let lb = value_to_vec(&other.min);
        let ha = value_to_vec(&self.max);
        let hb = value_to_vec(&other.max);
        let mut mins: Vec<i64> = Vec::new();
        let mut maxs: Vec<i64> = Vec::new();
        let mut sqs: Vec<u128> = Vec::new();
        let mut i: usize = 0;
        while i < ca.len()
            invariant
                a == self@,
                b == other@,
                self.axes() == other.axes(),
                sized(a, ca@.len() as nat),
                sized(b, ca@.len() as nat),
                ca@ == a.counts,
                cb@ == b.counts,
                sa@ == a.sums,
                sb@ == b.sums,
                qa@ == a.squares,
                qb@ == b.squares,
                la@ == a.mins,
                lb@ == b.mins,
                ha@ == a.maxs,
                hb@ == b.maxs,
                0 <= i <= ca.len(),
                mins@.len() == i,
                maxs@.len() == i,
                sqs@.len() == i,
                forall|j: int|
                    0 <= j < i ==> #[trigger] sqs@[j] == joined_squares(a.squares[j], b.squares[j]),
                forall|j: int| 0 <= j < i ==> #[trigger] mins@[j] == merged_min(a, b, j),
                forall|j: int| 0 <= j < i ==> #[trigger] maxs@[j] == merged_max(a, b, j),
                forall|j: int| 0 <= j < i ==> (#[trigger] a.counts[j]) + b.counts[j] <= usize::MAX,
                forall|j: int|
                    0 <= j < i ==> i64::MIN <= (#[trigger] a.sums[j]) + b.sums[j] <= i64::MAX,
            decreases ca.len() - i,
        {
            let fit = ca[i].checked_add(cb[i]).is_some() && sa[i].checked_add(sb[i]).is_some();
            if !fit {
                assert(!(a.counts[i as int] + b.counts[i as int] <= usize::MAX && i64::MIN
                    <= a.sums[i as int] + b.sums[i as int] <= i64::MAX));
                assert(!mergeable(a, b));
                return Err(MergeError::Overflow);
            }
            let sq: u128 = match qa[i].checked_add(qb[i]) {
                Some(x) => x,
                None => u128::MAX,
            };
            sqs.push(sq);
            let lo = if ca[i] == 0 {
                lb[i]
            } else if cb[i] == 0 || la[i] <= lb[i] {
                la[i]
            } else {
                lb[i]
            };
            let hi = if ca[i] == 0 {
                hb[i]
            } else if cb[i] == 0 || ha[i] >= hb[i] {
                ha[i]
            } else {
                hb[i]
            };
            mins.push(lo);
            maxs.push(hi);
            i += 1;
        }
        proof {
            self.grid.lemma_wf();
            assert(mins@ =~= merged(a, b).mins);
            assert(maxs@ =~= merged(a, b).maxs);
            assert(sqs@ =~= merged(a, b).squares);
        }
        let counts = count_sum(&self.counts, &other.counts);
        let sum = value_sum(&self.sum, &other.sum);
        let squares = square_from_vec(self.grid.shape(), sqs).unwrap();
        let min = value_from_vec(self.grid.shape(), mins).unwrap();
        let max = value_from_vec(self.grid.shape(), maxs).unwrap();
        Ok(BinnedStatistic { grid: self.grid, ddof: self.ddof, counts, sum, squares, min, max })
    }

    /// The number of axes of the space that the store covers.
    pub fn ndim(&self) -> (r: usize)
        requires
            self.wf(),
        ensures
            r == self.axes().len(),
    {
        self.grid.ndim()
    }

    /// The grid that the store stands over.
    pub fn grid(&self) -> (r: &Grid)
        ensures
            r@ == self.axes(),
            self.wf() ==> r.wf(),
    {
        &self.grid
    }

    /// The degrees of freedom that a variance gives up.
    pub fn ddof(&self) -> (r: usize)
        ensures
            r == self.spec_ddof(),
    {
        self.ddof
    }

    /// The array of counts: how many samples each bin has taken.
    pub fn counts(&self) -> (r: &CountArray)
        ensures
            count_cells(*r) == self@.counts,
            self.wf() ==> count_dims(*r) == shape_of(self.axes()),
    {
        &self.counts
    }

    /// The array of sums: the sum of the values that each bin has taken.
    pub fn sum(&self) -> (r: &ValueArray)
        ensures
            value_cells(*r) == self@.sums,
            self.wf() ==> value_dims(*r) == shape_of(self.axes()),
    {
        &self.sum
    }

    /// The mean of every bin, in the logical order of the bins.
    pub fn mean(&self) -> (r: Vec<Option<Ratio>>)
        requires
            self.wf(),
        ensures
            r@.len() == bin_total(self.axes()),
            forall|p: int| 0 <= p < r@.len() ==> #[trigger] r@[p] == mean_of(self@, p),
    {
        let c = count_to_vec(&self.counts);
        let s = value_to_vec(&self.sum);
        let mut out: Vec<Option<Ratio>> = Vec::new();
        let mut i: usize = 0;
        while i < c.len()
            invariant
                c@ == self@.counts,
                s@ == self@.sums,
                s@.len() == c@.len(),
                0 <= i <= c.len(),
                out@.len() == i,
                forall|p: int| 0 <= p < i ==> #[trigger] out@[p] == mean_of(self@, p),
            decreases c.len() - i,
        {
            out.push(mean_from_sums(c[i], s[i]));
            i += 1;
        }
        out
    }

    /// The array of sums of squares: the sum of the squared values that each
    /// bin has taken, held at `u128::MAX` once it reaches it.
    pub fn squares(&self) -> (r: &SquareArray)
        ensures
            square_cells(*r) == self@.squares,
            self.wf() ==> square_dims(*r) == shape_of(self.axes()),
    {
        &self.squares
    }

    /// The variance of every bin, in the logical order of the bins, each with
    /// its own error where it has none.
    pub fn variance(&self) -> (r: Vec<Result<Option<Ratio>, StatError>>)
        requires
            self.wf(),
        ensures
            r@.len() == bin_total(self.axes()),
            forall|p: int|
                0 <= p < r@.len() ==> #[trigger] r@[p] == variance_of(self@, self.spec_ddof(), p),
    {
        let c = count_to_vec(&self.counts);
        let s = value_to_vec(&self.sum);
        let q = square_to_vec(&self.squares);
        let mut out: Vec<Result<Option<Ratio>, StatError>> = Vec::new();
        let mut i: usize = 0;
        while i < c.len()
            invariant
                c@ == self@.counts,
                s@ == self@.sums,
                q@ == self@.squares,
                s@.len() == c@.len(),
                q@.len() == c@.len(),
                c@.len() == bin_total(self.axes()),
                0 <= i <= c.len(),
                out@.len() == i,
                forall|p: int|
                    0 <= p < i ==> #[trigger] out@[p] == variance_of(self@, self.spec_ddof(), p),
            decreases c.len() - i,
        {
            out.push(variance_from(c[i], s[i], q[i], self.ddof));
            i += 1;
        }
        out
    }

    /// The variance of the bin at `idx`.
    pub fn variance_at(&self, idx: &Vec<usize>) -> (r: Result<Option<Ratio>, StatError>)
        requires
            self.wf(),
            in_bounds(shape_of(self.axes()), idx@),
        ensures
            r == variance_of(
                self@,
                self.spec_ddof(),
                position(shape_of(self.axes()), idx@) as int,
            ),
    {
        proof {
            lemma_position_in_range(shape_of(self.grid@), idx@);
        }
        let n = count_get(&self.counts, idx);
        let s = value_get(&self.sum, idx);
        let q = square_get(&self.squares, idx);
        variance_from(n, s, q, self.ddof)
    }

    /// The smallest value of every bin, in the logical order of the bins.
    pub fn min(&self) -> (r: Vec<Option<i64>>)
        requires
            self.wf(),
        ensures
            r@.len() == bin_total(self.axes()),
            forall|p: int| 0 <= p < r@.len() ==> #[trigger] r@[p] == min_of(self@, p),
    {
        let c = count_to_vec(&self.counts);
        let m = value_to_vec(&self.min);
        let mut out: Vec<Option<i64>> = Vec::new();
        let mut i: usize = 0;
        while i < c.len()
            invariant
                c@ == self@.counts,
                m@ == self@.mins,
                m@.len() == c@.len(),
                0 <= i <= c.len(),
                out@.len() == i,
                forall|p: int| 0 <= p < i ==> #[trigger] out@[p] == min_of(self@, p),
            decreases c.len() - i,
        {
            out.push(if c[i] == 0 { None } else { Some(m[i]) });
            i += 1;
        }
        out
    }

    /// The largest value of every bin, in the logical order of the bins.
    pub fn max(&self) -> (r: Vec<Option<i64>>)
        requires
            self.wf(),
        ensures
            r@.len() == bin_total(self.axes()),
            forall|p: int| 0 <= p < r@.len() ==> #[trigger] r@[p] == max_of(self@, p),
    {
        let c = count_to_vec(&self.counts);
        let m = value_to_vec(&self.max);
        let mut out: Vec<Option<i64>> = Vec::new();
        let mut i: usize = 0;
        while i < c.len()
            invariant
                c@ == self@.counts,
                m@ == self@.maxs,
                m@.len() == c@.len(),
                0 <= i <= c.len(),
                out@.len() == i,
                forall|p: int| 0 <= p < i ==> #[trigger] out@[p] == max_of(self@, p),
            decreases c.len() - i,
        {
            out.push(if c[i] == 0 { None } else { Some(m[i]) });
            i += 1;
        }
        out
    }
}

/// Building a store from the rows of a matrix of samples.
pub trait BinnedStatisticExt {
    /// The rows: one point each, with one coordinate per axis.
    spec fn rows(&self) -> Seq<Seq<i64>>;

    /// Builds a store over `grid` and offers it every row in order, each with
    /// the value at its place. Rows outside the grid are passed over; a row
    /// inside the grid that its bin cannot take ends the build with an error.
    fn binned_statistic(&self, grid: Grid, values: &Vec<i64>) -> (r: Result<
        BinnedStatistic,
        SampleError,
    >)
        requires
            grid.wf(),
            self.rows().len() == values@.len(),
            forall|i: int| 0 <= i < self.rows().len() ==> (#[trigger] self.rows()[i]).len() == grid@.len(),
        ensures
            r is Ok <==> never_full(grid@, empty_bins(bin_total(grid@)), self.rows(), values@),
            r matches Err(e) ==> e == SampleError::Overflow,
            r matches Ok(s) ==> {
                &&& s.wf()
                &&& s.axes() == grid@
                &&& s.spec_ddof() == 0
                &&& s@ == feed(grid@, empty_bins(bin_total(grid@)), self.rows(), values@)
                &&& total(s@.counts) == inside_count(grid@, self.rows())
                &&& forall|p: int|
                    0 <= p < bin_total(grid@) ==> #[trigger] bin_matches_rows(
                        grid@,
                        s@,
                        self.rows(),
                        values@,
                        p,
                    )
            },
    ;
}

impl BinnedStatisticExt for Vec<Vec<i64>> {
    open spec fn rows(&self) -> Seq<Seq<i64>> {
        nested_view(*self)
    }

    fn binned_statistic(&self, grid: Grid, values: &Vec<i64>) -> (r: Result<
        BinnedStatistic,
        SampleError,
    >) {
        proof {
            assert forall|i: int| 0 <= i < self@.len() implies (#[trigger] self@[i])@.len()
                == grid@.len() by {
                assert(self.rows()[i].len() == grid@.len());
            }
        }
        BinnedStatistic::from_samples(grid, self, values)
    }
}

} // verus!
