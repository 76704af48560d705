//! The dense arrays that hold the per-bin aggregates, and the arithmetic of
//! row-major positions that relates a bin index to a place in them.
//!
//! The arrays themselves are ndarray's dynamic-rank arrays. Verus does not see
//! inside them: what they hold is named by the uninterpreted functions below,
//! and the few operations that the statistics need are stated over those
//! names and taken on trust.
use vstd::prelude::*;

verus! {

/// A dynamic-rank array of per-bin counts: ndarray's `ArrayD<usize>`, which
/// Verus does not look into.
#[verifier::external_body]
pub struct CountArray {
    inner: ndarray::ArrayD<usize>,
}

/// A dynamic-rank array of per-bin values: ndarray's `ArrayD<i64>`, which
/// Verus does not look into.
#[verifier::external_body]
pub struct ValueArray {
    inner: ndarray::ArrayD<i64>,
}

/// A dynamic-rank array of per-bin sums of squares: ndarray's `ArrayD<u128>`,
/// which Verus does not look into.
#[verifier::external_body]
pub struct SquareArray {
    inner: ndarray::ArrayD<u128>,
}

/// The cells of an array of counts, in logical order: the last axis varies
/// fastest.
pub uninterp spec fn count_cells(a: CountArray) -> Seq<usize>;

/// The length of each axis of an array of counts.
pub uninterp spec fn count_dims(a: CountArray) -> Seq<usize>;

/// The cells of an array of values, in logical order: the last axis varies
/// fastest.
pub uninterp spec fn value_cells(a: ValueArray) -> Seq<i64>;

/// The length of each axis of an array of values.
pub uninterp spec fn value_dims(a: ValueArray) -> Seq<usize>;

/// The cells of an array of sums of squares, in logical order: the last axis
/// varies fastest.
pub uninterp spec fn square_cells(a: SquareArray) -> Seq<u128>;

/// The length of each axis of an array of sums of squares.
pub uninterp spec fn square_dims(a: SquareArray) -> Seq<usize>;

/// The number of cells of an array with the given axis lengths.
pub open spec fn cell_total(dims: Seq<usize>) -> nat
    decreases dims.len(),
{
    if dims.len() == 0 {
        1
    } else {
        cell_total(dims.drop_last()) * (dims.last() as nat)
    }
}

/// Every axis has at least one place.
pub open spec fn all_positive(dims: Seq<usize>) -> bool {
    forall|k: int| 0 <= k < dims.len() ==> #[trigger] dims[k] > 0
}

/// `idx` names a cell of an array with axis lengths `dims`.
pub open spec fn in_bounds(dims: Seq<usize>, idx: Seq<usize>) -> bool {
    &&& idx.len() == dims.len()
    &&& forall|k: int| 0 <= k < dims.len() ==> #[trigger] idx[k] < dims[k]
}

/// The place of cell `idx` in logical order.
pub open spec fn position(dims: Seq<usize>, idx: Seq<usize>) -> nat
    decreases dims.len(),
{
    if dims.len() == 0 || idx.len() != dims.len() {
        0
    } else {
        position(dims.drop_last(), idx.drop_last()) * (dims.last() as nat) + (idx.last() as nat)
    }
}

/// A cell within bounds has its place before the end of the array.
pub proof fn lemma_position_in_range(dims: Seq<usize>, idx: Seq<usize>)
    requires
        in_bounds(dims, idx),
    ensures
        position(dims, idx) < cell_total(dims),
    decreases dims.len(),
{
    if dims.len() > 0 {
        let d = dims.drop_last();
        let i = idx.drop_last();
        assert(in_bounds(d, i)) by {
            assert forall|k: int| 0 <= k < d.len() implies #[trigger] i[k] < d[k] by {
                assert(idx[k] < dims[k]);
            }
        }
        lemma_position_in_range(d, i);
        let p = position(d, i) as int;
        let t = cell_total(d) as int;
        let n = dims.last() as int;
        let j = idx.last() as int;
        assert(idx[dims.len() - 1] < dims[dims.len() - 1]);
        assert(p * n + j < t * n) by (nonlinear_arith)
            requires
                0 <= p < t,
                0 <= j < n,
        ;
    }
}

/// Two distinct cells within bounds have distinct places.
pub proof fn lemma_position_injective(dims: Seq<usize>, a: Seq<usize>, b: Seq<usize>)
    requires
        in_bounds(dims, a),
        in_bounds(dims, b),
        position(dims, a) == position(dims, b),
    ensures
        a == b,
    decreases dims.len(),
{
    if dims.len() > 0 {
        let d = dims.drop_last();
        let a0 = a.drop_last();
        let b0 = b.drop_last();
        assert(in_bounds(d, a0)) by {
            assert forall|k: int| 0 <= k < d.len() implies #[trigger] a0[k] < d[k] by {
                assert(a[k] < dims[k]);
            }
        }
        assert(in_bounds(d, b0)) by {
            assert forall|k: int| 0 <= k < d.len() implies #[trigger] b0[k] < d[k] by {
                assert(b[k] < dims[k]);
            }
        }
        let n = dims.last() as int;
        let p = position(d, a0) as int;
        let q = position(d, b0) as int;
        let i = a.last() as int;
        let j = b.last() as int;
        assert(a[dims.len() - 1] < dims[dims.len() - 1]);
        assert(b[dims.len() - 1] < dims[dims.len() - 1]);
        assert(p == q && i == j) by (nonlinear_arith)
            requires
                p * n + i == q * n + j,
                0 <= i < n,
                0 <= j < n,
                0 <= p,
                0 <= q,
        ;
        lemma_position_injective(d, a0, b0);
        assert(a =~= a0.push(a.last()));
        assert(b =~= b0.push(b.last()));
    } else {
        assert(a =~= b);
    }
}

/// Calls ndarray's `ArrayBase::zeros` with a dynamic shape: the new array has
/// the axis lengths asked for and every cell is zero. The call panics where
/// the number of cells does not fit, which the precondition leaves out.
#[verifier::external_body]
pub(crate) fn count_zeros(dims: &Vec<usize>) -> (r: CountArray)
    requires
        all_positive(dims@),
        cell_total(dims@) * 8 <= isize::MAX,
    ensures
        count_dims(r) == dims@,
        count_cells(r) == Seq::new(cell_total(dims@), |i: int| 0usize),
{
    CountArray { inner: ndarray::ArrayD::zeros(ndarray::IxDyn(dims.as_slice())) }
}

/// Reads one cell through ndarray's `Index` for a slice of axis offsets: the
/// cell at the row-major place of `idx`. Indexing out of bounds panics, which
/// the precondition leaves out.
#[verifier::external_body]
pub(crate) fn count_get(a: &CountArray, idx: &Vec<usize>) -> (r: usize)
    requires
        in_bounds(count_dims(*a), idx@),
        position(count_dims(*a), idx@) < count_cells(*a).len(),
    ensures
        r == count_cells(*a)[position(count_dims(*a), idx@) as int],
{
    a.inner[idx.as_slice()]
}

/// Writes one cell through ndarray's `IndexMut` for a slice of axis offsets:
/// the cell at the row-major place of `idx` takes the value, every other cell
/// and the shape stay.
#[verifier::external_body]
pub(crate) fn count_set(a: &mut CountArray, idx: &Vec<usize>, v: usize)
    requires
        in_bounds(count_dims(*old(a)), idx@),
        position(count_dims(*old(a)), idx@) < count_cells(*old(a)).len(),
    ensures
        count_dims(*final(a)) == count_dims(*old(a)),
        count_cells(*final(a)) == count_cells(*old(a)).update(
            position(count_dims(*old(a)), idx@) as int,
            v,
        ),
{
    a.inner[idx.as_slice()] = v;
}

/// Walks ndarray's `ArrayBase::iter`, which visits the cells in logical order,
/// and collects them.
#[verifier::external_body]
pub(crate) fn count_to_vec(a: &CountArray) -> (r: Vec<usize>)
    ensures
        r@ == count_cells(*a),
{
    a.inner.iter().cloned().collect()
}

/// Adds two arrays of one shape with ndarray's `Add` for array references:
/// the result has that shape and each cell is the sum of the two cells at its
/// place. The precondition leaves out the sums that do not fit.
#[verifier::external_body]
pub(crate) fn count_sum(a: &CountArray, b: &CountArray) -> (r: CountArray)
    requires
        count_dims(*a) == count_dims(*b),
        count_cells(*a).len() == count_cells(*b).len(),
        forall|i: int|
            0 <= i < count_cells(*a).len() ==> #[trigger] count_cells(*a)[i] + count_cells(
                *b,
            )[i] <= usize::MAX,
    ensures
        count_dims(r) == count_dims(*a),
        count_cells(r) == Seq::new(
            count_cells(*a).len(),
            |i: int| (count_cells(*a)[i] + count_cells(*b)[i]) as usize,
        ),
{
    CountArray { inner: &a.inner + &b.inner }
}

/// Calls ndarray's `ArrayBase::zeros` with a dynamic shape: the new array has
/// the axis lengths asked for and every cell is zero. The call panics where
/// the number of cells does not fit, which the precondition leaves out.
#[verifier::external_body]
pub(crate) fn value_zeros(dims: &Vec<usize>) -> (r: ValueArray)
    requires
        all_positive(dims@),
        cell_total(dims@) * 8 <= isize::MAX,
    ensures
        value_dims(r) == dims@,
        value_cells(r) == Seq::new(cell_total(dims@), |i: int| 0i64),
{
    ValueArray { inner: ndarray::ArrayD::zeros(ndarray::IxDyn(dims.as_slice())) }
}

/// Reads one cell through ndarray's `Index` for a slice of axis offsets: the
/// cell at the row-major place of `idx`. Indexing out of bounds panics, which
/// the precondition leaves out.
#[verifier::external_body]
pub(crate) fn value_get(a: &ValueArray, idx: &Vec<usize>) -> (r: i64)
    requires
        in_bounds(value_dims(*a), idx@),
        position(value_dims(*a), idx@) < value_cells(*a).len(),
    ensures
        r == value_cells(*a)[position(value_dims(*a), idx@) as int],
{
    a.inner[idx.as_slice()]
}

/// Writes one cell through ndarray's `IndexMut` for a slice of axis offsets:
/// the cell at the row-major place of `idx` takes the value, every other cell
/// and the shape stay.
#[verifier::external_body]
pub(crate) fn value_set(a: &mut ValueArray, idx: &Vec<usize>, v: i64)
    requires
        in_bounds(value_dims(*old(a)), idx@),
        position(value_dims(*old(a)), idx@) < value_cells(*old(a)).len(),
    ensures
        value_dims(*final(a)) == value_dims(*old(a)),
        value_cells(*final(a)) == value_cells(*old(a)).update(
            position(value_dims(*old(a)), idx@) as int,
            v,
        ),
{
    a.inner[idx.as_slice()] = v;
}

/// Walks ndarray's `ArrayBase::iter`, which visits the cells in logical order,
/// and collects them.
#[verifier::external_body]
pub(crate) fn value_to_vec(a: &ValueArray) -> (r: Vec<i64>)
    ensures
        r@ == value_cells(*a),
{
    a.inner.iter().cloned().collect()
}

/// Adds two arrays of one shape with ndarray's `Add` for array references:
/// the result has that shape and each cell is the sum of the two cells at its
/// place. The precondition leaves out the sums that do not fit.
#[verifier::external_body]
pub(crate) fn value_sum(a: &ValueArray, b: &ValueArray) -> (r: ValueArray)
    requires
        value_dims(*a) == value_dims(*b),
        value_cells(*a).len() == value_cells(*b).len(),
        forall|i: int|
            0 <= i < value_cells(*a).len() ==> i64::MIN <= #[trigger] value_cells(*a)[i]
                + value_cells(*b)[i] <= i64::MAX,
    ensures
        value_dims(r) == value_dims(*a),
        value_cells(r) == Seq::new(
            value_cells(*a).len(),
            |i: int| (value_cells(*a)[i] + value_cells(*b)[i]) as i64,
        ),
{
    ValueArray { inner: &a.inner + &b.inner }
}

/// Calls ndarray's `ArrayBase::from_shape_vec` with a dynamic shape in the
/// default (row-major) order: where the vector has exactly as many elements
/// as the shape has cells, the array holds them in logical order; otherwise
/// ndarray reports a shape error and nothing is returned.
#[verifier::external_body]
pub(crate) fn value_from_vec(dims: &Vec<usize>, v: Vec<i64>) -> (r: Option<ValueArray>)
    requires
        all_positive(dims@),
    ensures
        r is Some <==> cell_total(dims@) == v@.len(),
        r is Some ==> value_dims(r->0) == dims@ && value_cells(r->0) == v@,
{
    match ndarray::ArrayD::from_shape_vec(ndarray::IxDyn(dims.as_slice()), v) {
        Ok(inner) => Some(ValueArray { inner }),
        Err(_) => None,
    }
}

/// Calls ndarray's `ArrayBase::zeros` with a dynamic shape: the new array has
/// the axis lengths asked for and every cell is zero. The call panics where
/// the number of cells does not fit, which the precondition leaves out.
#[verifier::external_body]
pub(crate) fn square_zeros(dims: &Vec<usize>) -> (r: SquareArray)
    requires
        all_positive(dims@),
        cell_total(dims@) * 16 <= isize::MAX,
    ensures
        square_dims(r) == dims@,
        square_cells(r) == Seq::new(cell_total(dims@), |i: int| 0u128),
{
    SquareArray { inner: ndarray::ArrayD::zeros(ndarray::IxDyn(dims.as_slice())) }
}

/// Reads one cell through ndarray's `Index` for a slice of axis offsets: the
/// cell at the row-major place of `idx`. Indexing out of bounds panics, which
/// the precondition leaves out.
#[verifier::external_body]
pub(crate) fn square_get(a: &SquareArray, idx: &Vec<usize>) -> (r: u128)
    requires
        in_bounds(square_dims(*a), idx@),
        position(square_dims(*a), idx@) < square_cells(*a).len(),
    ensures
        r == square_cells(*a)[position(square_dims(*a), idx@) as int],
{
    a.inner[idx.as_slice()]
}

/// Writes one cell through ndarray's `IndexMut` for a slice of axis offsets:
/// the cell at the row-major place of `idx` takes the value, every other cell
/// and the shape stay.
#[verifier::external_body]
pub(crate) fn square_set(a: &mut SquareArray, idx: &Vec<usize>, v: u128)
    requires
        in_bounds(square_dims(*old(a)), idx@),
        position(square_dims(*old(a)), idx@) < square_cells(*old(a)).len(),
    ensures
        square_dims(*final(a)) == square_dims(*old(a)),
        square_cells(*final(a)) == square_cells(*old(a)).update(
            position(square_dims(*old(a)), idx@) as int,
            v,
        ),
{
    a.inner[idx.as_slice()] = v;
}

/// Walks ndarray's `ArrayBase::iter`, which visits the cells in logical order,
/// and collects them.
#[verifier::external_body]
pub(crate) fn square_to_vec(a: &SquareArray) -> (r: Vec<u128>)
    ensures
        r@ == square_cells(*a),
{
    a.inner.iter().cloned().collect()
}

/// Calls ndarray's `ArrayBase::from_shape_vec` with a dynamic shape in the
/// default (row-major) order: where the vector has exactly as many elements
/// as the shape has cells, the array holds them in logical order; otherwise
/// ndarray reports a shape error and nothing is returned.
#[verifier::external_body]
pub(crate) fn square_from_vec(dims: &Vec<usize>, v: Vec<u128>) -> (r: Option<SquareArray>)
    requires
        all_positive(dims@),
    ensures
        r is Some <==> cell_total(dims@) == v@.len(),
        r is Some ==> square_dims(r->0) == dims@ && square_cells(r->0) == v@,
{
    match ndarray::ArrayD::from_shape_vec(ndarray::IxDyn(dims.as_slice()), v) {
        Ok(inner) => Some(SquareArray { inner }),
        Err(_) => None,
    }
}

/// Asks ndarray's `ArrayBase::as_slice` for the cells without copying them:
/// where the array lies in memory in standard order, the slice holds its
/// cells in logical order; otherwise ndarray returns nothing.
#[verifier::external_body]
pub(crate) fn count_slice(a: &CountArray) -> (r: Option<&[usize]>)
    ensures
        r matches Some(s) ==> s@ == count_cells(*a),
{
    a.inner.as_slice()
}

/// Asks ndarray's `ArrayBase::as_slice` for the cells without copying them:
/// where the array lies in memory in standard order, the slice holds its
/// cells in logical order; otherwise ndarray returns nothing.
#[verifier::external_body]
pub(crate) fn value_slice(a: &ValueArray) -> (r: Option<&[i64]>)
    ensures
        r matches Some(s) ==> s@ == value_cells(*a),
{
    a.inner.as_slice()
}

/// Asks ndarray's `ArrayBase::as_slice` for the cells without copying them:
/// where the array lies in memory in standard order, the slice holds its
/// cells in logical order; otherwise ndarray returns nothing.
#[verifier::external_body]
pub(crate) fn square_slice(a: &SquareArray) -> (r: Option<&[u128]>)
    ensures
        r matches Some(s) ==> s@ == square_cells(*a),
{
    a.inner.as_slice()
}

impl SquareArray {
    /// The cells in logical order: the last axis varies fastest.
    pub fn cells(&self) -> (r: Vec<u128>)
        ensures
            r@ == square_cells(*self),
    {
        square_to_vec(self)
    }

    /// The cells in logical order as a slice of the array's own memory, where
    /// the array lies there in that order.
    pub fn as_slice(&self) -> (r: Option<&[u128]>)
        ensures
            r matches Some(s) ==> s@ == square_cells(*self),
    {
        square_slice(self)
    }
}

impl CountArray {
    /// The cells in logical order: the last axis varies fastest.
    pub fn cells(&self) -> (r: Vec<usize>)
        ensures
            r@ == count_cells(*self),
    {
        count_to_vec(self)
    }

    /// The cells in logical order as a slice of the array's own memory, where
    /// the array lies there in that order.
    pub fn as_slice(&self) -> (r: Option<&[usize]>)
        ensures
            r matches Some(s) ==> s@ == count_cells(*self),
    {
        count_slice(self)
    }
}

impl ValueArray {
    /// The cells in logical order: the last axis varies fastest.
    pub fn cells(&self) -> (r: Vec<i64>)
        ensures
            r@ == value_cells(*self),
    {
        value_to_vec(self)
    }

    /// The cells in logical order as a slice of the array's own memory, where
    /// the array lies there in that order.
    pub fn as_slice(&self) -> (r: Option<&[i64]>)
        ensures
            r matches Some(s) ==> s@ == value_cells(*self),
    {
        value_slice(self)
    }
}

} // verus!
