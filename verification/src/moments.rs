//! Exact means and variances from a bin's count, sum and sum of squares.
use vstd::prelude::*;
use crate::model::{variance_from_sums, Ratio, StatError};

verus! {

/// The mean of `n` values with sum `s` as an exact fraction, absent for no
/// values.
pub fn mean_from_sums(n: usize, s: i64) -> (r: Option<Ratio>)
    ensures
        r == if n == 0 {
            None
        } else {
            Some(Ratio { num: s as i128, den: n as u128 })
        },
{
    if n == 0 {
        None
    } else {
        Some(Ratio { num: s as i128, den: n as u128 })
    }
}

/// The square of a value.
pub fn square_of(v: i64) -> (r: u128)
    ensures
        r == v * v,
{
    let wide: i128 = v as i128;
    assert(0 <= wide * wide <= 0x4000_0000_0000_0000_0000_0000_0000_0000) by (nonlinear_arith)
        requires
            -0x8000_0000_0000_0000 <= wide <= 0x7fff_ffff_ffff_ffff,
    ;
    (wide * wide) as u128
}

/// The variance of `n` values with sum `s` and sum of squares `q`, with `ddof`
/// degrees of freedom given up, as an exact fraction.
pub fn variance_from(n: usize, s: i64, q: u128, ddof: usize) -> (r: Result<Option<Ratio>, StatError>)
    ensures
        r == variance_from_sums(n, s, q, ddof),
{
    if n == 0 {
        return Ok(None);
    }
    if n < ddof {
        return Err(StatError::InvalidDegreesOfFreedom);
    }
    if n == ddof {
        return Ok(Some(Ratio { num: 0, den: 1 }));
    }
    let wide_s: i128 = s as i128;
    assert(0 <= wide_s * wide_s <= 0x4000_0000_0000_0000_0000_0000_0000_0000) by (nonlinear_arith)
        requires
            -0x8000_0000_0000_0000 <= wide_s <= 0x7fff_ffff_ffff_ffff,
    ;
    let square: u128 = (wide_s * wide_s) as u128;
    let count: u128 = n as u128;
    let scaled: u128 = match count.checked_mul(q) {
        Some(x) => x,
        None => {
            return Err(StatError::VarianceTooLarge);
        },
    };
    if scaled < square {
        return Err(StatError::NegativeVariance);
    }
    let num: u128 = scaled - square;
    if num > 0x7fff_ffff_ffff_ffff_ffff_ffff_ffff_ffff {
        return Err(StatError::VarianceTooLarge);
    }
    let dof: u128 = (n - ddof) as u128;
    assert(0 <= count * dof <= 0xffff_ffff_ffff_ffff_ffff_ffff_ffff_ffff) by (nonlinear_arith)
        requires
            0 <= count <= 0xffff_ffff_ffff_ffff,
            0 <= dof <= 0xffff_ffff_ffff_ffff,
    ;
    Ok(Some(Ratio { num: num as i128, den: count * dof }))
}

} // verus!
