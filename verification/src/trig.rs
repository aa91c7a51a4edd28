//! Integer trigonometry at degree resolution.
//!
//! The sweep effect needs a unit direction built from two random angles.  A
//! rational approximation of the sine (exact at 0, 30, 90, 150 and 180
//! degrees and within a few thousandths elsewhere) keeps the whole engine in
//! integer arithmetic.  Results are scaled by 1000: `sin_milli(90) == 1000`.

use vstd::arithmetic::div_mod::{lemma_div_is_ordered, lemma_div_multiples_vanish};
use vstd::prelude::*;

verus! {

/// Sine of `d` degrees for `0 <= d <= 180`, scaled by 1000, by the rational
/// approximation `4000 * d * (180 - d) / (40500 - d * (180 - d))`.
pub open spec fn spec_half_sin(d: int) -> int {
    4000 * (d * (180 - d)) / (40500 - d * (180 - d))
}

/// Sine of `d` degrees for `0 <= d < 360`, scaled by 1000.
pub open spec fn spec_sin_milli(d: int) -> int {
    if d <= 180 {
        spec_half_sin(d)
    } else {
        -spec_half_sin(d - 180)
    }
}

/// Cosine of `d` degrees for `0 <= d < 360`, scaled by 1000.
pub open spec fn spec_cos_milli(d: int) -> int {
    spec_sin_milli((d + 90) % 360)
}

/// The approximation stays within the unit scale.
pub proof fn lemma_half_sin_bounds(d: int)
    requires
        0 <= d <= 180,
    ensures
        0 <= spec_half_sin(d) <= 1000,
{
    assert(0 <= d * (180 - d) <= 8100) by (nonlinear_arith)
        requires 0 <= d <= 180;
    let u = d * (180 - d);
    let den = 40500 - u;
    assert(den >= 32400);
    lemma_div_is_ordered(0, 4000 * u, den);
    assert(4000 * u <= 1000 * den);
    lemma_div_is_ordered(4000 * u, den * 1000, den);
    lemma_div_multiples_vanish(1000, den);
}

/// The sine scaled by 1000 stays within the unit scale for any angle.
pub proof fn lemma_sin_milli_bounds(d: int)
    requires
        0 <= d < 360,
    ensures
        -1000 <= spec_sin_milli(d) <= 1000,
{
    if d <= 180 {
        lemma_half_sin_bounds(d);
    } else {
        lemma_half_sin_bounds(d - 180);
    }
}

/// Sine of `d` degrees, scaled by 1000.
pub fn sin_milli(d: u16) -> (r: i64)
    requires
        d < 360,
    ensures
        r == spec_sin_milli(d as int),
        -1000 <= r <= 1000,
{
    proof {
        lemma_sin_milli_bounds(d as int);
    }
    if d <= 180 {
        half_sin(d)
    } else {
        let s = half_sin(d - 180);
        -s
    }
}

/// Cosine of `d` degrees, scaled by 1000.
pub fn cos_milli(d: u16) -> (r: i64)
    requires
        d < 360,
    ensures
        r == spec_cos_milli(d as int),
        -1000 <= r <= 1000,
{
    let shifted = (d + 90) % 360;
    sin_milli(shifted)
}

/// Sine of `d` degrees for `d <= 180`, scaled by 1000.
fn half_sin(d: u16) -> (r: i64)
    requires
        d <= 180,
    ensures
        r == spec_half_sin(d as int),
        0 <= r <= 1000,
{
    proof {
        lemma_half_sin_bounds(d as int);
        assert(0 <= (d as int) * (180 - d as int) <= 8100) by (nonlinear_arith)
            requires 0 <= d as int <= 180;
    }
    let u: i64 = (d as i64) * (180 - d as i64);
    (4000 * u) / (40500 - u)
}

} // verus!
