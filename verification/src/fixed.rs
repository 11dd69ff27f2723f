//! Signed fixed-point numbers with 32 fractional bits and saturating arithmetic.
//!
//! A number is stored as a 64-bit integer that counts units of 2^-32. Every
//! operation is total on its stated domain: a result that leaves the
//! representable range is replaced by the nearest bound, and a product or
//! quotient that falls between two representable numbers is rounded toward zero.
//! The range is symmetric, so negation is always exact.
//!
//! Contracts speak of the *raw* value, the integer count of units, which is the
//! view of a [`Fixed`].

use vstd::prelude::*;

verus! {

/// Raw value of the number one.
pub const ONE_RAW: i64 = 0x1_0000_0000;

/// Largest raw value; the smallest is its negation.
pub const MAX_RAW: i64 = 0x7fff_ffff_ffff_ffff;

/// Number of raw units in one.
pub open spec fn scale() -> int {
    0x1_0000_0000
}

/// Largest raw magnitude.
pub open spec fn limit() -> int {
    0x7fff_ffff_ffff_ffff
}

/// Magnitude of an integer.
pub open spec fn magnitude(n: int) -> int {
    if n < 0 {
        -n
    } else {
        n
    }
}

/// `n` moved to the nearest value of the representable range.
pub open spec fn sat(n: int) -> int {
    if n > limit() {
        limit()
    } else if n < -limit() {
        -limit()
    } else {
        n
    }
}

/// Quotient of `n` by `d` rounded toward zero, for `d != 0`.
pub open spec fn tdiv(n: int, d: int) -> int {
    if (n < 0) == (d < 0) {
        magnitude(n) / magnitude(d)
    } else {
        -(magnitude(n) / magnitude(d))
    }
}

/// Raw value of a saturating sum.
pub open spec fn fx_add(a: int, b: int) -> int {
    sat(a + b)
}

/// Raw value of a saturating difference.
pub open spec fn fx_sub(a: int, b: int) -> int {
    sat(a - b)
}

/// Raw value of a negation.
pub open spec fn fx_neg(a: int) -> int {
    sat(-a)
}

/// Raw value of a product: the exact product rounded toward zero, saturated.
pub open spec fn fx_mul(a: int, b: int) -> int {
    sat(tdiv(a * b, scale()))
}

/// Raw value of a quotient, for `b != 0`: the exact quotient rounded toward
/// zero, saturated.
pub open spec fn fx_div(a: int, b: int) -> int {
    sat(tdiv(a * scale(), b))
}

/// `r` is the integer square root of `n`: the largest natural number whose
/// square does not exceed `n`.
pub open spec fn is_isqrt(n: int, r: int) -> bool {
    0 <= r && r * r <= n < (r + 1) * (r + 1)
}

/// Integer square root of `n`, for `n >= 0`.
pub open spec fn isqrt(n: int) -> int {
    choose|r: int| is_isqrt(n, r)
}

/// Raw value of a square root, for `a >= 0`: the exact root rounded down.
pub open spec fn fx_sqrt(a: int) -> int {
    isqrt(a * scale())
}

/// Raw value of `a * b - c * d`: the exact value rounded toward zero, saturated.
pub open spec fn fx_mul_sub(a: int, b: int, c: int, d: int) -> int {
    sat(tdiv(a * b - c * d, scale()))
}

/// Raw value of `a1 * b1 + a2 * b2 + a3 * b3`: the exact value rounded toward
/// zero, saturated.
pub open spec fn fx_dot3(a1: int, b1: int, a2: int, b2: int, a3: int, b3: int) -> int {
    sat(tdiv(a1 * b1 + a2 * b2 + a3 * b3, scale()))
}

/// Raw value of the Euclidean norm of `(x, y, z)`: the exact norm rounded down,
/// saturated.
pub open spec fn fx_norm3(x: int, y: int, z: int) -> int {
    sat(isqrt(x * x + y * y + z * z))
}

/// Raw value of a product with the whole number `n`, saturated. Nothing is
/// rounded.
pub open spec fn fx_times(a: int, n: int) -> int {
    sat(a * n)
}

/// Raw value of one half, from which on a magnitude counts as of ordinary
/// size.
pub const ORDINARY_RAW: i64 = 0x8000_0000;

/// The power of two that brings the raw magnitude `m` to ordinary size: the
/// one for which `m * growth(m)` lies between one half and one, where `m` is
/// positive and below one half; one for every other `m`.
pub open spec fn growth(m: int) -> int
    decreases 2 * ORDINARY_RAW - m,
{
    if m <= 0 || m >= ORDINARY_RAW {
        1
    } else {
        2 * growth(2 * m)
    }
}

/// Raw value of the smaller of two numbers.
pub open spec fn fx_min(a: int, b: int) -> int {
    if a < b {
        a
    } else {
        b
    }
}

/// Raw value of the larger of two numbers.
pub open spec fn fx_max(a: int, b: int) -> int {
    if a < b {
        b
    } else {
        a
    }
}

/// A raw value that some [`Fixed`] has.
pub open spec fn in_range(a: int) -> bool {
    -limit() <= a <= limit()
}

/// A fixed-point number.
#[derive(Clone, Copy, Debug, PartialEq, Eq)]
pub struct Fixed {
    raw: i64,
}

impl View for Fixed {
    type V = int;

    /// The raw value. The one bit pattern below the symmetric range stands for
    /// the lower bound.
    closed spec fn view(&self) -> int {
        sat(self.raw as int)
    }
}

/// The product of two 64-bit integers fits in 128 bits with room to spare.
proof fn lemma_product_fits(a: int, b: int)
    requires
        in_range(a),
        in_range(b),
    ensures
        -0x4000_0000_0000_0000_0000_0000_0000_0000 < a * b
            < 0x4000_0000_0000_0000_0000_0000_0000_0000,
        magnitude(a * b) == magnitude(a) * magnitude(b),
{
    let ma = magnitude(a);
    let mb = magnitude(b);
    assert(0 <= ma * mb <= 0x7fff_ffff_ffff_ffff * 0x7fff_ffff_ffff_ffff) by (nonlinear_arith)
        requires
            0 <= ma <= 0x7fff_ffff_ffff_ffff,
            0 <= mb <= 0x7fff_ffff_ffff_ffff,
    ;
    assert(magnitude(a * b) == ma * mb && (a * b == ma * mb || a * b == -(ma * mb)))
        by (nonlinear_arith)
        requires
            ma == magnitude(a),
            mb == magnitude(b),
    ;
}


/// A count of 2^126 units or more exceeds the range after scaling down.
proof fn lemma_tdiv_large(n: int)
    requires
        n >= 0x4000_0000_0000_0000_0000_0000_0000_0000,
    ensures
        tdiv(n, scale()) > limit(),
        tdiv(-n, scale()) < -limit(),
{
    assert(n / 0x1_0000_0000 >= 0x4000_0000_0000_0000_0000_0000) by (nonlinear_arith)
        requires
            n >= 0x4000_0000_0000_0000_0000_0000 * 0x1_0000_0000,
    ;
}

/// Rounding toward zero keeps the order of the numerators, for a positive
/// denominator.
pub proof fn lemma_tdiv_monotonic(m: int, n: int, d: int)
    requires
        m <= n,
        0 < d,
    ensures
        tdiv(m, d) <= tdiv(n, d),
{
    if m >= 0 {
        vstd::arithmetic::div_mod::lemma_div_is_ordered(m, n, d);
    } else if n >= 0 {
        vstd::arithmetic::div_mod::lemma_div_pos_is_pos(-m, d);
        vstd::arithmetic::div_mod::lemma_div_pos_is_pos(n, d);
    } else {
        vstd::arithmetic::div_mod::lemma_div_is_ordered(-n, -m, d);
    }
}

/// A quotient by a positive number grows with the dividend.
pub proof fn lemma_fx_div_monotonic(a: int, b: int, d: int)
    requires
        a <= b,
        0 < d,
    ensures
        fx_div(a, d) <= fx_div(b, d),
{
    assert(a * scale() <= b * scale()) by (nonlinear_arith)
        requires
            a <= b,
    ;
    lemma_tdiv_monotonic(a * scale(), b * scale(), d);
}

/// What [`growth`] brings about: a positive magnitude times its growth is at
/// least one half, and below one where the magnitude was below one half.
pub proof fn lemma_growth(m: int)
    ensures
        1 <= growth(m) < 2 * ORDINARY_RAW,
        0 < m ==> ORDINARY_RAW <= m * growth(m),
        0 < m < ORDINARY_RAW ==> m * growth(m) < 2 * ORDINARY_RAW,
        m <= 0 || m >= ORDINARY_RAW ==> growth(m) == 1,
    decreases 2 * ORDINARY_RAW - m,
{
    if 0 < m < ORDINARY_RAW {
        lemma_growth(2 * m);
        let g = growth(2 * m);
        assert(m * (2 * g) == (2 * m) * g) by (nonlinear_arith);
        assert(2 * g <= (2 * m) * g) by (nonlinear_arith)
            requires
                1 <= m,
                1 <= g,
        ;
    } else {
        assert(m * 1 == m);
    }
}

/// A product with one is the other factor, and a product with zero is zero.
pub proof fn lemma_fx_mul_unit(a: int)
    requires
        in_range(a),
    ensures
        fx_mul(a, scale()) == a,
        fx_mul(scale(), a) == a,
        fx_mul(a, 0) == 0,
        fx_mul(0, a) == 0,
{
    let m = magnitude(a);
    vstd::arithmetic::div_mod::lemma_div_by_multiple(m, scale());
    assert(magnitude(a * scale()) == m * scale() && a * scale() == scale() * a && (a * scale() < 0
        <==> a < 0)) by (nonlinear_arith)
        requires
            m == magnitude(a),
            scale() == 0x1_0000_0000,
    ;
    assert(a * 0 == 0 && 0 * a == 0) by (nonlinear_arith);
}

/// A product of two numbers that are not negative is not negative and grows
/// with its factors.
pub proof fn lemma_fx_mul_bound(a: int, b: int, amax: int, bmax: int)
    requires
        0 <= a <= amax,
        0 <= b <= bmax,
    ensures
        0 <= fx_mul(a, b) <= tdiv(amax * bmax, scale()),
{
    assert(0 <= a * b <= amax * bmax) by (nonlinear_arith)
        requires
            0 <= a <= amax,
            0 <= b <= bmax,
    ;
    lemma_tdiv_monotonic(a * b, amax * bmax, scale());
    vstd::arithmetic::div_mod::lemma_div_pos_is_pos(a * b, scale());
}

/// A quotient of a number that is not negative by a positive one is not
/// negative and grows with the dividend.
pub proof fn lemma_fx_div_bound(a: int, d: int, amax: int)
    requires
        0 <= a <= amax,
        0 < d,
    ensures
        0 <= fx_div(a, d) <= tdiv(amax * scale(), d),
{
    assert(0 <= a * scale() <= amax * scale()) by (nonlinear_arith)
        requires
            0 <= a <= amax,
            scale() == 0x1_0000_0000,
    ;
    lemma_tdiv_monotonic(a * scale(), amax * scale(), d);
    vstd::arithmetic::div_mod::lemma_div_pos_is_pos(a * scale(), d);
}

/// A square is not negative.
pub proof fn lemma_fx_square_nonnegative(a: int)
    ensures
        0 <= fx_mul(a, a) <= limit(),
{
    assert(a * a >= 0) by (nonlinear_arith);
    vstd::arithmetic::div_mod::lemma_div_pos_is_pos(a * a, scale());
}

/// At most one number is the integer square root of `n`.
pub proof fn lemma_isqrt_unique(n: int, r1: int, r2: int)
    requires
        is_isqrt(n, r1),
        is_isqrt(n, r2),
    ensures
        r1 == r2,
{
    if r1 < r2 {
        assert((r1 + 1) * (r1 + 1) <= r2 * r2) by (nonlinear_arith)
            requires
                0 <= r1,
                r1 + 1 <= r2,
        ;
    }
    if r2 < r1 {
        assert((r2 + 1) * (r2 + 1) <= r1 * r1) by (nonlinear_arith)
            requires
                0 <= r2,
                r2 + 1 <= r1,
        ;
    }
}

/// A number found to be the integer square root of `n` is `isqrt(n)`.
pub proof fn lemma_isqrt_is(n: int, r: int)
    requires
        is_isqrt(n, r),
    ensures
        isqrt(n) == r,
{
    lemma_isqrt_unique(n, r, isqrt(n));
}

/// Integer square root of a 128-bit number.
fn isqrt_u128(n: u128) -> (r: u128)
    ensures
        is_isqrt(n as int, r as int),
        r < 0x1_0000_0000_0000_0000,
{
    let mut lo: u128 = 0;
    let mut hi: u128 = 0x1_0000_0000_0000_0000;
    assert(0x1_0000_0000_0000_0000 * 0x1_0000_0000_0000_0000
        == 0x1_0000_0000_0000_0000_0000_0000_0000_0000int) by (nonlinear_arith);
    while hi - lo > 1
        invariant
            lo < hi <= 0x1_0000_0000_0000_0000,
            lo * lo <= n < hi * hi,
        decreases hi - lo,
    {
        let mid: u128 = lo + (hi - lo) / 2;
        assert(mid * mid <= 0xffff_ffff_ffff_ffff * 0xffff_ffff_ffff_ffff) by (nonlinear_arith)
            requires
                0 <= mid <= 0xffff_ffff_ffff_ffff,
        ;
        if mid * mid <= n {
            lo = mid;
        } else {
            hi = mid;
        }
    }
    lo
}

/// Every natural number has an integer square root.
pub proof fn lemma_isqrt_exists(n: int)
    requires
        0 <= n,
    ensures
        is_isqrt(n, isqrt(n)),
    decreases n,
{
    if n == 0 {
        assert(is_isqrt(0, 0));
    } else {
        lemma_isqrt_exists(n - 1);
        let r = isqrt(n - 1);
        if (r + 1) * (r + 1) <= n {
            assert((r + 2) * (r + 2) > (r + 1) * (r + 1)) by (nonlinear_arith)
                requires
                    0 <= r,
            ;
            assert(is_isqrt(n, r + 1));
        } else {
            assert(is_isqrt(n, r));
        }
    }
}

impl Fixed {
    /// Every number lies in the symmetric range.
    pub proof fn lemma_in_range(self)
        ensures
            in_range(self@),
    {
    }

    /// The number with the given raw value, saturated.
    pub fn from_raw(raw: i64) -> (r: Fixed)
        ensures
            r@ == sat(raw as int),
    {
        if raw == i64::MIN {
            Fixed { raw: -MAX_RAW }
        } else {
            Fixed { raw }
        }
    }

    /// The raw value.
    pub fn raw(self) -> (r: i64)
        ensures
            r == self@,
    {
        if self.raw == i64::MIN {
            -MAX_RAW
        } else {
            self.raw
        }
    }

    /// The number nearest to a 128-bit count of units.
    fn saturate(n: i128) -> (r: Fixed)
        ensures
            r@ == sat(n as int),
    {
        if n > MAX_RAW as i128 {
            Fixed { raw: MAX_RAW }
        } else if n < -(MAX_RAW as i128) {
            Fixed { raw: -MAX_RAW }
        } else {
            Fixed { raw: n as i64 }
        }
    }

    /// Zero.
    pub fn zero() -> (r: Fixed)
        ensures
            r@ == 0,
    {
        Fixed { raw: 0 }
    }

    /// One.
    pub fn one() -> (r: Fixed)
        ensures
            r@ == scale(),
    {
        Fixed { raw: ONE_RAW }
    }

    /// The largest number.
    pub fn max_value() -> (r: Fixed)
        ensures
            r@ == limit(),
    {
        Fixed { raw: MAX_RAW }
    }

    /// The number in `[0, 1)` whose thirty-two fractional bits are `bits`.
    pub fn from_fraction_bits(bits: u32) -> (r: Fixed)
        ensures
            r@ == bits,
    {
        Fixed { raw: bits as i64 }
    }

    /// The whole number `n`.
    pub fn from_int(n: i32) -> (r: Fixed)
        ensures
            r@ == sat(n * scale()),
    {
        Fixed::saturate((n as i128) * 0x1_0000_0000i128)
    }

    /// The fraction `num / den`, rounded toward zero and saturated.
    pub fn from_ratio(num: i64, den: i64) -> (r: Fixed)
        requires
            den != 0,
        ensures
            r@ == sat(tdiv(num * scale(), den as int)),
    {
        Fixed::quotient((num as i128) * 0x1_0000_0000i128, den as i128)
    }

    /// `n / d` rounded toward zero and saturated.
    fn quotient(n: i128, d: i128) -> (r: Fixed)
        requires
            d != 0,
            -0x8000_0000_0000_0000 <= d <= 0x7fff_ffff_ffff_ffff,
            -0x8000_0000_0000_0000_0000_0000_0000_0000 < n,
        ensures
            r@ == sat(tdiv(n as int, d as int)),
    {
        let mn: u128 = if n < 0 {
            (-n) as u128
        } else {
            n as u128
        };
        let md: u128 = if d < 0 {
            (-d) as u128
        } else {
            d as u128
        };
        let q: u128 = mn / md;
        if q > MAX_RAW as u128 {
            if (n < 0) == (d < 0) {
                Fixed { raw: MAX_RAW }
            } else {
                Fixed { raw: -MAX_RAW }
            }
        } else if (n < 0) == (d < 0) {
            Fixed { raw: q as i64 }
        } else {
            Fixed { raw: -(q as i64) }
        }
    }

    /// Product with the whole number `n`, saturated; nothing is rounded.
    pub fn times(self, n: i64) -> (r: Fixed)
        ensures
            r@ == fx_times(self@, n as int),
    {
        let a: i128 = self.raw() as i128;
        let b: i128 = n as i128;
        assert(-0x4000_0000_0000_0000_0000_0000_0000_0000 <= a * b
            <= 0x4000_0000_0000_0000_0000_0000_0000_0000) by (nonlinear_arith)
            requires
                -0x8000_0000_0000_0000 <= a <= 0x8000_0000_0000_0000,
                -0x8000_0000_0000_0000 <= b <= 0x8000_0000_0000_0000,
        ;
        Fixed::saturate(a * b)
    }

    /// The power of two that brings the magnitude of `self` to ordinary size.
    pub fn growth(self) -> (f: i64)
        ensures
            f == growth(magnitude(self@)),
            1 <= f < 2 * ORDINARY_RAW,
    {
        let m: i64 = self.abs().raw();
        let mut n: i64 = m;
        let mut f: i64 = 1;
        proof {
            lemma_growth(m as int);
            assert(1 * growth(n as int) == growth(n as int));
        }
        while 0 < n && n < ORDINARY_RAW
            invariant
                0 <= n,
                1 <= f,
                growth(m as int) == f * growth(n as int),
                1 <= growth(m as int) < 2 * ORDINARY_RAW,
            decreases
                    (if n < ORDINARY_RAW {
                        ORDINARY_RAW - n
                    } else {
                        0
                    }),
        {
            proof {
                lemma_growth(2 * n);
                let g = growth(2 * n);
                assert(f * (2 * g) == (2 * f) * g) by (nonlinear_arith);
                assert(2 * f <= (2 * f) * g) by (nonlinear_arith)
                    requires
                        1 <= f,
                        1 <= g,
                ;
                assert(growth(n as int) == 2 * g);
            }
            n = 2 * n;
            f = 2 * f;
        }
        proof {
            lemma_growth(n as int);
            assert(f * 1 == f);
        }
        f
    }

    /// Saturating sum.
    pub fn add(self, other: Fixed) -> (r: Fixed)
        ensures
            r@ == fx_add(self@, other@),
    {
        Fixed::saturate(self.raw() as i128 + other.raw() as i128)
    }

    /// Saturating difference.
    pub fn sub(self, other: Fixed) -> (r: Fixed)
        ensures
            r@ == fx_sub(self@, other@),
    {
        Fixed::saturate(self.raw() as i128 - other.raw() as i128)
    }

    /// Negation, which is exact.
    pub fn neg(self) -> (r: Fixed)
        ensures
            r@ == fx_neg(self@),
            r@ == -self@,
    {
        Fixed { raw: -self.raw() }
    }

    /// Product, rounded toward zero and saturated.
    pub fn mul(self, other: Fixed) -> (r: Fixed)
        ensures
            r@ == fx_mul(self@, other@),
    {
        let a: i128 = self.raw() as i128;
        let b: i128 = other.raw() as i128;
        proof {
            lemma_product_fits(a as int, b as int);
        }
        Fixed::quotient(a * b, 0x1_0000_0000i128)
    }

    /// Quotient, rounded toward zero and saturated.
    pub fn div(self, other: Fixed) -> (r: Fixed)
        requires
            other@ != 0,
        ensures
            r@ == fx_div(self@, other@),
    {
        Fixed::quotient((self.raw() as i128) * 0x1_0000_0000i128, other.raw() as i128)
    }

    /// `self * b - c * d` with a single rounding.
    pub fn mul_sub(self, b: Fixed, c: Fixed, d: Fixed) -> (r: Fixed)
        ensures
            r@ == fx_mul_sub(self@, b@, c@, d@),
    {
        let p: i128 = (self.raw() as i128);
        let q: i128 = (b.raw() as i128);
        let u: i128 = (c.raw() as i128);
        let v: i128 = (d.raw() as i128);
        proof {
            lemma_product_fits(p as int, q as int);
            lemma_product_fits(u as int, v as int);
        }
        Fixed::quotient(p * q - u * v, 0x1_0000_0000i128)
    }

    /// `self * b1 + a2 * b2 + a3 * b3` with a single rounding.
    pub fn dot3(self, b1: Fixed, a2: Fixed, b2: Fixed, a3: Fixed, b3: Fixed) -> (r: Fixed)
        ensures
            r@ == fx_dot3(self@, b1@, a2@, b2@, a3@, b3@),
    {
        proof {
            lemma_product_fits(self@, b1@);
            lemma_product_fits(a2@, b2@);
            lemma_product_fits(a3@, b3@);
        }
        let first: i128 = (self.raw() as i128) * (b1.raw() as i128);
        let second: i128 = (a2.raw() as i128) * (b2.raw() as i128);
        let third: i128 = (a3.raw() as i128) * (b3.raw() as i128);
        let s: i128 = first + second;
        let ghost total: int = first + second + third;
        assert(total == self@ * b1@ + a2@ * b2@ + a3@ * b3@);
        if s >= 0x4000_0000_0000_0000_0000_0000_0000_0000i128 && third > 0 {
            proof {
                lemma_tdiv_large(total);
            }
            Fixed { raw: MAX_RAW }
        } else if s <= -0x4000_0000_0000_0000_0000_0000_0000_0000i128 && third < 0 {
            proof {
                lemma_tdiv_large(-total);
            }
            Fixed { raw: -MAX_RAW }
        } else {
            Fixed::quotient(s + third, 0x1_0000_0000i128)
        }
    }

    /// Euclidean norm of `(x, y, z)`, rounded down and saturated.
    pub fn norm3(x: Fixed, y: Fixed, z: Fixed) -> (r: Fixed)
        ensures
            r@ == fx_norm3(x@, y@, z@),
            r@ >= 0,
    {
        proof {
            lemma_product_fits(x@, x@);
            lemma_product_fits(y@, y@);
            lemma_product_fits(z@, z@);
        }
        let a: i128 = x.raw() as i128;
        let b: i128 = y.raw() as i128;
        let c: i128 = z.raw() as i128;
        assert(a * a >= 0 && b * b >= 0 && c * c >= 0) by (nonlinear_arith);
        let n: u128 = (a * a) as u128 + (b * b) as u128 + (c * c) as u128;
        let root: u128 = isqrt_u128(n);
        proof {
            lemma_isqrt_is(n as int, root as int);
        }
        if root > MAX_RAW as u128 {
            Fixed { raw: MAX_RAW }
        } else {
            Fixed { raw: root as i64 }
        }
    }

    /// Square root, rounded down.
    pub fn sqrt(self) -> (r: Fixed)
        requires
            self@ >= 0,
        ensures
            r@ == fx_sqrt(self@),
            r@ >= 0,
    {
        let n: u128 = (self.raw() as u128) * 0x1_0000_0000u128;
        let root: u128 = isqrt_u128(n);
        proof {
            lemma_isqrt_is(n as int, root as int);
            assert(root * root < 0x1_0000_0000_0000 * 0x1_0000_0000_0000 ==> root
                < 0x1_0000_0000_0000) by (nonlinear_arith);
            assert(0x1_0000_0000_0000 * 0x1_0000_0000_0000 == 0x1_0000_0000_0000_0000_0000_0000int)
                by (nonlinear_arith);
        }
        Fixed { raw: root as i64 }
    }

    /// Whether `self < other`.
    pub fn lt(self, other: Fixed) -> (r: bool)
        ensures
            r == (self@ < other@),
    {
        self.raw() < other.raw()
    }

    /// Whether `self <= other`.
    pub fn le(self, other: Fixed) -> (r: bool)
        ensures
            r == (self@ <= other@),
    {
        self.raw() <= other.raw()
    }

    /// Whether the two numbers are equal.
    pub fn same(self, other: Fixed) -> (r: bool)
        ensures
            r == (self@ == other@),
    {
        self.raw() == other.raw()
    }

    /// Whether the number is zero.
    pub fn is_zero(self) -> (r: bool)
        ensures
            r == (self@ == 0),
    {
        self.raw() == 0
    }

    /// Whether the number is below zero.
    pub fn is_negative(self) -> (r: bool)
        ensures
            r == (self@ < 0),
    {
        self.raw() < 0
    }

    /// Magnitude, which is exact.
    pub fn abs(self) -> (r: Fixed)
        ensures
            r@ == magnitude(self@),
    {
        if self.raw() < 0 {
            Fixed { raw: -self.raw() }
        } else {
            Fixed { raw: self.raw() }
        }
    }

    /// The smaller of two numbers.
    pub fn min(self, other: Fixed) -> (r: Fixed)
        ensures
            r@ == fx_min(self@, other@),
    {
        if self.raw() < other.raw() {
            self
        } else {
            other
        }
    }

    /// The larger of two numbers.
    pub fn max(self, other: Fixed) -> (r: Fixed)
        ensures
            r@ == fx_max(self@, other@),
    {
        if self.raw() < other.raw() {
            other
        } else {
            self
        }
    }
}

} // verus!
