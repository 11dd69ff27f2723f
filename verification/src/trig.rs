//! Sine, cosine and tangent by Taylor polynomials.
//!
//! The polynomials have degree 13 (sine) and 14 (cosine) and are evaluated by
//! Horner's scheme in the square of the argument. They are meant for angles
//! between minus and plus a quarter turn, where their error stays within a few
//! units; nothing here proves how close they are to the functions they stand
//! for.

use crate::fixed::{
    fx_div, fx_mul, fx_sub, lemma_fx_div_bound, lemma_fx_mul_bound, lemma_fx_square_nonnegative,
    scale, Fixed,
};
use vstd::prelude::*;

verus! {

/// One step of Horner's scheme: `1 - x2 / divisor * inner`.
pub open spec fn fx_horner_step(x2: int, divisor: int, inner: int) -> int {
    fx_sub(scale(), fx_mul(fx_div(x2, divisor * scale()), inner))
}

/// Raw value of the sine polynomial
/// `x (1 - x^2/6 (1 - x^2/20 (1 - x^2/42 (1 - x^2/72 (1 - x^2/110 (1 - x^2/156))))))`.
pub open spec fn fx_sin(x: int) -> int {
    let x2 = fx_mul(x, x);
    fx_mul(
        x,
        fx_horner_step(
            x2,
            6,
            fx_horner_step(
                x2,
                20,
                fx_horner_step(
                    x2,
                    42,
                    fx_horner_step(
                        x2,
                        72,
                        fx_horner_step(x2, 110, fx_horner_step(x2, 156, scale())),
                    ),
                ),
            ),
        ),
    )
}

/// Raw value of the cosine polynomial
/// `1 - x^2/2 (1 - x^2/12 (1 - x^2/30 (1 - x^2/56 (1 - x^2/90 (1 - x^2/132 (1 - x^2/182))))))`.
pub open spec fn fx_cos(x: int) -> int {
    let x2 = fx_mul(x, x);
    fx_horner_step(
        x2,
        2,
        fx_horner_step(
            x2,
            12,
            fx_horner_step(
                x2,
                30,
                fx_horner_step(
                    x2,
                    56,
                    fx_horner_step(
                        x2,
                        90,
                        fx_horner_step(x2, 132, fx_horner_step(x2, 182, scale())),
                    ),
                ),
            ),
        ),
    )
}

/// Raw value of the tangent, the quotient of the two polynomials, where the
/// cosine polynomial is not zero.
pub open spec fn fx_tan(x: int) -> int {
    fx_div(fx_sin(x), fx_cos(x))
}

/// One step of Horner's scheme stays between zero and one, for a square
/// below two and an inner value between zero and one.
pub proof fn lemma_horner_step_bounds(x2: int, divisor: int, inner: int)
    requires
        0 <= x2 < 2 * scale(),
        2 <= divisor <= 182,
        0 <= inner <= scale(),
    ensures
        0 < fx_horner_step(x2, divisor, inner) <= scale(),
{
    let k = scale();
    let d = divisor * k;
    lemma_fx_div_bound(x2, d, x2);
    let q = fx_div(x2, d);
    let n = x2 * k;
    assert(0 <= n < d * k) by (nonlinear_arith)
        requires
            n == x2 * k,
            d == divisor * k,
            0 <= x2 < 2 * k,
            2 <= divisor,
            0 < k,
    ;
    vstd::arithmetic::div_mod::lemma_fundamental_div_mod(n, d);
    vstd::arithmetic::div_mod::lemma_mod_pos_bound(n, d);
    let c = n / d;
    if c >= k {
        assert(d * c >= d * k) by (nonlinear_arith)
            requires
                c >= k,
                0 < d,
        ;
    }
    assert(q < k);
    lemma_fx_mul_bound(q, inner, q, k);
    vstd::arithmetic::div_mod::lemma_div_by_multiple(q, k);
}

/// The cosine polynomial is positive, and at most one, for every angle whose
/// square is below two, that is, up to a little more than 81 degrees.
pub proof fn lemma_cosine_positive(x: int)
    requires
        fx_mul(x, x) < 2 * scale(),
    ensures
        0 < fx_cos(x) <= scale(),
{
    lemma_fx_square_nonnegative(x);
    let x2 = fx_mul(x, x);
    let s7 = fx_horner_step(x2, 182, scale());
    lemma_horner_step_bounds(x2, 182, scale());
    let s6 = fx_horner_step(x2, 132, s7);
    lemma_horner_step_bounds(x2, 132, s7);
    let s5 = fx_horner_step(x2, 90, s6);
    lemma_horner_step_bounds(x2, 90, s6);
    let s4 = fx_horner_step(x2, 56, s5);
    lemma_horner_step_bounds(x2, 56, s5);
    let s3 = fx_horner_step(x2, 30, s4);
    lemma_horner_step_bounds(x2, 30, s4);
    let s2 = fx_horner_step(x2, 12, s3);
    lemma_horner_step_bounds(x2, 12, s3);
    lemma_horner_step_bounds(x2, 2, s2);
}

/// One step of Horner's scheme.
fn horner_step(x2: Fixed, divisor: i32, inner: Fixed) -> (r: Fixed)
    requires
        0 < divisor <= 182,
    ensures
        r@ == fx_horner_step(x2@, divisor as int, inner@),
{
    Fixed::one().sub(x2.div(Fixed::from_int(divisor)).mul(inner))
}

/// Sine of an angle in radians.
pub fn sin(x: Fixed) -> (r: Fixed)
    ensures
        r@ == fx_sin(x@),
{
    let x2 = x.mul(x);
    let mut acc = horner_step(x2, 156, Fixed::one());
    acc = horner_step(x2, 110, acc);
    acc = horner_step(x2, 72, acc);
    acc = horner_step(x2, 42, acc);
    acc = horner_step(x2, 20, acc);
    acc = horner_step(x2, 6, acc);
    x.mul(acc)
}

/// Cosine of an angle in radians.
pub fn cos(x: Fixed) -> (r: Fixed)
    ensures
        r@ == fx_cos(x@),
{
    let x2 = x.mul(x);
    let mut acc = horner_step(x2, 182, Fixed::one());
    acc = horner_step(x2, 132, acc);
    acc = horner_step(x2, 90, acc);
    acc = horner_step(x2, 56, acc);
    acc = horner_step(x2, 30, acc);
    acc = horner_step(x2, 12, acc);
    horner_step(x2, 2, acc)
}

/// Tangent of an angle in radians whose cosine is not zero.
pub fn tan(x: Fixed) -> (r: Fixed)
    requires
        fx_cos(x@) != 0,
    ensures
        r@ == fx_tan(x@),
{
    sin(x).div(cos(x))
}

/// Tangent of an angle in radians, or nothing where its cosine is zero.
pub fn checked_tan(x: Fixed) -> (r: Option<Fixed>)
    ensures
        fx_cos(x@) == 0 ==> r is None,
        fx_cos(x@) != 0 ==> r is Some && r.unwrap()@ == fx_tan(x@),
{
    let c = cos(x);
    if c.is_zero() {
        None
    } else {
        Some(sin(x).div(c))
    }
}

} // verus!
