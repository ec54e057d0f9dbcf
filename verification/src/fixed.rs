use vstd::prelude::*;
use vstd::arithmetic::div_mod::{lemma_fundamental_div_mod, lemma_fundamental_div_mod_converse};

verus! {

/// Number of fixed-point subunits per pixel: every coordinate in this crate
/// is an integer count of 1/65536-pixel steps, so one pixel is `FX_ONE`
/// subunits.
pub const FX_ONE: i64 = 65536;

/// Division truncating toward zero, for a positive divisor. This is what
/// Rust's `/` computes on signed integers.
pub open spec fn div_tz(a: int, d: int) -> int {
    if a >= 0 {
        a / d
    } else {
        -((-a) / d)
    }
}

/// Division by 3, truncating toward zero.
pub fn div3_tz(a: i128) -> (r: i128)
    requires
        a > i128::MIN,
    ensures
        r == div_tz(a as int, 3),
{
    a / 3
}

/// Division by `FX_ONE`, truncating toward zero: scales a product of two
/// fixed-point values back down to fixed-point.
pub fn fxdiv_tz(a: i128) -> (r: i128)
    requires
        a > i128::MIN,
    ensures
        r == div_tz(a as int, FX_ONE as int),
{
    a / (FX_ONE as i128)
}

/// Division by `FX_ONE`, rounding toward negative infinity: the index of the
/// pixel column or row at or below a fixed-point coordinate.
pub fn fxdiv_floor(a: i64) -> (r: i64)
    requires
        -0x4000_0000_0000_0000 <= a <= 0x4000_0000_0000_0000,
    ensures
        r == a as int / FX_ONE as int,
{
    if a >= 0 {
        a / FX_ONE
    } else {
        let m = -a - 1;
        let q = m / FX_ONE;
        proof {
            lemma_fundamental_div_mod(m as int, FX_ONE as int);
            lemma_fundamental_div_mod_converse(
                a as int,
                FX_ONE as int,
                -(q as int) - 1,
                FX_ONE as int - (m as int % FX_ONE as int) - 1,
            );
        }
        -q - 1
    }
}

} // verus!
