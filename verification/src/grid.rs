//! A rectangular partition of an integer coordinate space.
//!
//! Each axis is cut by a strictly increasing list of edges; two neighbouring
//! edges `a < b` bound the bin `[a, b)`. A point belongs to the grid when, on
//! every axis, its coordinate lies in one of that axis's bins.
use vstd::prelude::*;
use crate::arrays::{all_positive, cell_total, in_bounds};

verus! {

/// Every edge is smaller than the edges after it.
pub open spec fn increasing(e: Seq<i64>) -> bool {
    forall|i: int, j: int| 0 <= i < j < e.len() ==> e[i] < e[j]
}

/// Every axis has at least one bin and strictly increasing edges.
pub open spec fn valid_axes(axes: Seq<Seq<i64>>) -> bool {
    forall|k: int|
        0 <= k < axes.len() ==> 2 <= (#[trigger] axes[k]).len() <= usize::MAX && increasing(
            axes[k],
        )
}

/// The sequences held by a vector of vectors.
pub open spec fn nested_view(v: Vec<Vec<i64>>) -> Seq<Seq<i64>> {
    Seq::new(v@.len(), |k: int| v@[k]@)
}

/// Valid axes have at least one bin each.
pub proof fn lemma_shape_positive(axes: Seq<Seq<i64>>)
    requires
        valid_axes(axes),
    ensures
        all_positive(shape_of(axes)),
{
    assert forall|k: int| 0 <= k < shape_of(axes).len() implies #[trigger] shape_of(axes)[k]
        > 0 by {
        assert(axes[k].len() >= 2);
    }
}

/// The number of bins along each axis.
pub open spec fn shape_of(axes: Seq<Seq<i64>>) -> Seq<usize> {
    Seq::new(axes.len(), |k: int| (axes[k].len() - 1) as usize)
}

/// Coordinate `x` lies in the `i`-th bin of an axis with edges `e`.
pub open spec fn in_bin(e: Seq<i64>, x: i64, i: int) -> bool {
    0 <= i < e.len() - 1 && e[i] <= x < e[i + 1]
}

/// The bin of an axis that holds coordinate `x`, if any.
pub open spec fn axis_bin(e: Seq<i64>, x: i64) -> Option<usize> {
    if exists|i: int| in_bin(e, x, i) {
        Some((choose|i: int| in_bin(e, x, i)) as usize)
    } else {
        None
    }
}

/// The bin of the grid that holds `point`, if the point has one coordinate
/// per axis and each lies in a bin of its axis.
pub open spec fn bin_index(axes: Seq<Seq<i64>>, point: Seq<i64>) -> Option<Seq<usize>> {
    if point.len() == axes.len() && forall|k: int|
        0 <= k < axes.len() ==> (#[trigger] axis_bin(axes[k], point[k])) is Some {
        Some(Seq::new(axes.len(), |k: int| axis_bin(axes[k], point[k])->0))
    } else {
        None
    }
}

/// With increasing edges a coordinate lies in at most one bin.
pub proof fn lemma_bin_unique(e: Seq<i64>, x: i64, i: int, j: int)
    requires
        increasing(e),
        in_bin(e, x, i),
        in_bin(e, x, j),
    ensures
        i == j,
{
    if i < j {
        assert(e[i + 1] <= e[j]) by {
            if i + 1 < j {
                assert(e[i + 1] < e[j]);
            }
        }
    } else if j < i {
        assert(e[j + 1] <= e[i]) by {
            if j + 1 < i {
                assert(e[j + 1] < e[i]);
            }
        }
    }
}

/// A bin index that the grid gives lies within the grid's shape.
pub proof fn lemma_bin_index_in_bounds(axes: Seq<Seq<i64>>, point: Seq<i64>)
    requires
        valid_axes(axes),
        bin_index(axes, point) is Some,
    ensures
        in_bounds(shape_of(axes), bin_index(axes, point)->0),
{
    let idx = bin_index(axes, point)->0;
    assert forall|k: int| 0 <= k < axes.len() implies #[trigger] idx[k] < shape_of(axes)[k] by {
        assert(axis_bin(axes[k], point[k]) is Some);
        assert(axes[k].len() <= usize::MAX);
        let i = choose|i: int| in_bin(axes[k], point[k], i);
        assert(in_bin(axes[k], point[k], i));
    }
}

/// A growing prefix of positive axis lengths never has more cells than the
/// whole.
pub proof fn lemma_prefix_cells(dims: Seq<usize>, k: int)
    requires
        all_positive(dims),
        0 <= k <= dims.len(),
    ensures
        cell_total(dims.take(k)) <= cell_total(dims),
    decreases dims.len(),
{
    if k == dims.len() {
        assert(dims.take(k) =~= dims);
    } else {
        let d = dims.drop_last();
        assert(d.take(k) =~= dims.take(k));
        assert forall|j: int| 0 <= j < d.len() implies #[trigger] d[j] > 0 by {
            assert(dims[j] > 0);
        }
        lemma_prefix_cells(d, k);
        let t = cell_total(d) as int;
        let n = dims.last() as int;
        assert(dims[dims.len() - 1] > 0);
        assert(t <= t * n) by (nonlinear_arith)
            requires
                t >= 0,
                n >= 1,
        ;
    }
}

/// The most cells a grid may have: sixteen bytes for each must stay
/// addressable.
pub open spec fn max_cells() -> int {
    isize::MAX / 16
}

/// A rectangular partition of an integer coordinate space.
pub struct Grid {
    axes: Vec<Vec<i64>>,
    shape: Vec<usize>,
}

impl View for Grid {
    type V = Seq<Seq<i64>>;

    /// The edges of each axis.
    closed spec fn view(&self) -> Seq<Seq<i64>> {
        Seq::new(self.axes@.len(), |k: int| self.axes@[k]@)
    }
}

/// Whether the edges of one axis are strictly increasing and bound a bin.
fn axis_is_valid(e: &Vec<i64>) -> (r: bool)
    ensures
        r == (2 <= e@.len() <= usize::MAX && increasing(e@)),
{
    if e.len() < 2 {
        return false;
    }
    let mut i: usize = 1;
    while i < e.len()
        invariant
            1 <= i <= e.len(),
            forall|a: int, b: int| 0 <= a < b < i ==> e@[a] < e@[b],
        decreases e.len() - i,
    {
        if e[i - 1] >= e[i] {
            return false;
        }
        i += 1;
    }
    true
}

impl Grid {
    /// The grid is well formed: its axes are valid and it has few enough bins
    /// for dense arrays over them.
    pub closed spec fn wf(&self) -> bool {
        &&& valid_axes(self@)
        &&& self.shape@ == shape_of(self@)
        &&& cell_total(shape_of(self@)) <= max_cells()
    }

    /// What makes a list of edge lists a grid.
    pub open spec fn accepts(axes: Seq<Seq<i64>>) -> bool {
        valid_axes(axes) && cell_total(shape_of(axes)) <= max_cells()
    }

    /// A well-formed grid has valid axes and a bounded number of bins.
    pub proof fn lemma_wf(&self)
        requires
            self.wf(),
        ensures
            Grid::accepts(self@),
            all_positive(shape_of(self@)),
    {
        lemma_shape_positive(self@);
    }

    /// Builds the grid whose axes are cut by the given edges. Returns `None`
    /// where an axis has fewer than two edges or edges that do not strictly
    /// increase, or where the grid would have too many bins.
    pub fn from_edges(edges: Vec<Vec<i64>>) -> (r: Option<Grid>)
        ensures
            r is Some <==> Grid::accepts(nested_view(edges)),
            r is Some ==> (r->0).wf() && (r->0)@ == nested_view(edges),
    {
        let ghost axes = nested_view(edges);
        let limit: usize = (isize::MAX / 16) as usize;
        let mut shape: Vec<usize> = Vec::new();
        let mut cells: usize = 1;
        let mut k: usize = 0;
        while k < edges.len()
            invariant
                axes == nested_view(edges),
                axes.len() == edges.len(),
                limit == max_cells(),
                0 <= k <= edges.len(),
                shape@ == shape_of(axes.take(k as int)),
                valid_axes(axes.take(k as int)),
                cells == cell_total(shape@),
                cells <= limit,
            decreases edges.len() - k,
        {
            assert(axes[k as int] == edges[k as int]@);
            if !axis_is_valid(&edges[k]) {
                return None;
            }
            let bins: usize = edges[k].len() - 1;
            proof {
                let ghost next = axes.take(k + 1);
                assert(next.drop_last() =~= axes.take(k as int));
                assert(shape_of(next) =~= shape@.push(bins));
                assert(shape@.push(bins).drop_last() =~= shape@);
                assert forall|j: int| 0 <= j < next.len() implies (#[trigger] next[j]).len() >= 2
                    && increasing(next[j]) by {
                    if j < k {
                        assert(axes.take(k as int)[j] == next[j]);
                    }
                }
            }
            let product = cells.checked_mul(bins);
            let fits = match product {
                Some(p) => p <= limit,
                None => false,
            };
            if !fits {
                proof {
                    if valid_axes(axes) {
                        let ghost dims = shape_of(axes);
                        lemma_shape_positive(axes);
                        assert(dims.take(k + 1) =~= shape@.push(bins));
                        lemma_prefix_cells(dims, k + 1);
                    }
                }
                return None;
            }
            cells = product.unwrap();
            shape.push(bins);
            k += 1;
        }
        proof {
            assert(axes.take(k as int) =~= axes);
        }
        let g = Grid { axes: edges, shape };
        proof {
            assert(g@ =~= axes);
        }
        Some(g)
    }

    /// The number of axes.
    pub fn ndim(&self) -> (r: usize)
        requires
            self.wf(),
        ensures
            r == self@.len(),
    {
        self.axes.len()
    }

    /// The number of bins along each axis.
    pub fn shape(&self) -> (r: &Vec<usize>)
        requires
            self.wf(),
        ensures
            r@ == shape_of(self@),
    {
        &self.shape
    }

    /// The edges of axis `k`.
    pub fn axis_edges(&self, k: usize) -> (r: &Vec<i64>)
        requires
            k < self@.len(),
        ensures
            r@ == self@[k as int],
    {
        &self.axes[k]
    }

    /// The bin that holds `point`, or `None` where some coordinate lies
    /// outside every bin of its axis.
    pub fn index_of(&self, point: &Vec<i64>) -> (r: Option<Vec<usize>>)
        requires
            self.wf(),
            point@.len() == self@.len(),
        ensures
            r is Some <==> bin_index(self@, point@) is Some,
            r is Some ==> (r->0)@ == bin_index(self@, point@)->0 && in_bounds(
                shape_of(self@),
                (r->0)@,
            ),
    {
        let mut idx: Vec<usize> = Vec::new();
        let mut k: usize = 0;
        while k < self.axes.len()
            invariant
                self.wf(),
                point@.len() == self@.len(),
                self@.len() == self.axes@.len(),
                0 <= k <= self.axes.len(),
                idx@.len() == k,
                forall|j: int|
                    0 <= j < k ==> (#[trigger] axis_bin(self@[j], point@[j])) == Some(idx@[j]),
            decreases self.axes.len() - k,
        {
            let e = &self.axes[k];
            let x = point[k];
            assert(e@ == self@[k as int]);
            let mut i: usize = 0;
            let mut found: Option<usize> = None;
            while i + 1 < e.len() && found.is_none()
                invariant
                    0 <= i < e.len(),
                    e@.len() >= 2,
                    increasing(e@),
                    forall|j: int| 0 <= j < i ==> !in_bin(e@, x, j) || found == Some(j as usize),
                    found is Some ==> in_bin(e@, x, found->0 as int),
                decreases e.len() - i, (if found is None { 1int } else { 0int }),
            {
                if e[i] <= x && x < e[i + 1] {
                    found = Some(i);
                } else {
                    i += 1;
                }
            }
            match found {
                Some(b) => {
                    proof {
                        let c = choose|c: int| in_bin(e@, x, c);
                        lemma_bin_unique(e@, x, c, b as int);
                    }
                    idx.push(b);
                },
                None => {
                    assert(axis_bin(self@[k as int], point@[k as int]) is None);
                    return None;
                },
            }
            k += 1;
        }
        proof {
            assert((bin_index(self@, point@)->0) =~= idx@);
            lemma_bin_index_in_bounds(self@, point@);
        }
        Some(idx)
    }

    /// Whether two grids are cut by the same edges.
    pub fn same_as(&self, other: &Grid) -> (r: bool)
        ensures
            r == (self@ == other@),
    {
        assert(self@.len() == self.axes@.len() && other@.len() == other.axes@.len());
        if self.axes.len() != other.axes.len() {
            return false;
        }
        let mut k: usize = 0;
        while k < self.axes.len()
            invariant
                self.axes@.len() == other.axes@.len(),
                0 <= k <= self.axes.len(),
                forall|j: int| 0 <= j < k ==> self@[j] == other@[j],
            decreases self.axes.len() - k,
        {
            let a = &self.axes[k];
            let b = &other.axes[k];
            assert(a@ == self@[k as int] && b@ == other@[k as int]);
            if a.len() != b.len() {
                assert(self@[k as int].len() != other@[k as int].len());
                return false;
            }
            let mut i: usize = 0;
            while i < a.len()
                invariant
                    a@.len() == b@.len(),
                    a@ == self@[k as int],
                    b@ == other@[k as int],
                    0 <= i <= a.len(),
                    forall|j: int| 0 <= j < i ==> a@[j] == b@[j],
                decreases a.len() - i,
            {
                if a[i] != b[i] {
                    assert(a@[i as int] != b@[i as int]);
                    return false;
                }
                i += 1;
            }
            assert(a@ =~= b@);
            k += 1;
        }
        assert(self@ =~= other@);
        true
    }
}

} // verus!
