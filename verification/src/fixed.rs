//! Saturating decimal fixed-point numbers.
//!
//! A [`Fixed`] stores a real quantity as a signed count of billionths. Sums,
//! products and quotients are rounded toward zero and clamped to the range of
//! `i64`, so no operation can overflow.

use vstd::prelude::*;

verus! {

/// Raw units per whole: the raw value `SCALE` stands for the number one.
pub const SCALE: i64 = 1_000_000_000;

/// Clamps a mathematical integer into the raw range.
pub open spec fn saturate(v: int) -> int {
    if v < i64::MIN as int {
        i64::MIN as int
    } else if v > i64::MAX as int {
        i64::MAX as int
    } else {
        v
    }
}

/// Quotient rounded toward zero, for any non-zero divisor.
pub open spec fn quot(a: int, b: int) -> int {
    if a >= 0 {
        a / b
    } else {
        -((-a) / b)
    }
}

/// Sum of two raw values.
#[verifier::opaque]
pub open spec fn fx_add(a: int, b: int) -> int {
    saturate(a + b)
}

/// Difference of two raw values.
#[verifier::opaque]
pub open spec fn fx_sub(a: int, b: int) -> int {
    saturate(a - b)
}

/// A raw value with its sign changed. The lowest raw value has no counterpart and
/// gives the highest.
#[verifier::opaque]
pub open spec fn fx_neg(a: int) -> int {
    saturate(-a)
}

/// Product of two raw values, rescaled to raw units.
#[verifier::opaque]
pub open spec fn fx_mul(a: int, b: int) -> int {
    saturate(quot(a * b, 1_000_000_000))
}

/// Quotient of two raw values, rescaled to raw units. Meaningful for `b != 0`.
#[verifier::opaque]
pub open spec fn fx_div(a: int, b: int) -> int {
    saturate(quot(a * 1_000_000_000, b))
}

/// Raw value of a whole number.
pub open spec fn fx_int(n: int) -> int {
    saturate(n * 1_000_000_000)
}

/// A quotient is never larger in magnitude than its dividend.
pub proof fn lemma_quot_bound(a: int, b: int)
    requires
        b != 0,
    ensures
        a >= 0 ==> -a <= quot(a, b) <= a,
        a <= 0 ==> a <= quot(a, b) <= -a,
{
    if a >= 0 {
        assert(-a <= a / b <= a) by (nonlinear_arith)
            requires
                a >= 0,
                b != 0,
        ;
    } else {
        let m = -a;
        assert(-m <= m / b <= m) by (nonlinear_arith)
            requires
                m >= 0,
                b != 0,
        ;
    }
}

/// A fixed-point number with nine decimal places. Its value is `raw / SCALE`; its
/// view is `raw` as a mathematical integer.
#[derive(Clone, Copy, Debug, PartialEq, Eq, Structural)]
pub struct Fixed {
    pub raw: i64,
}

impl View for Fixed {
    type V = int;

    open spec fn view(&self) -> int {
        self.raw as int
    }
}

fn clamp(v: i128) -> (r: i64)
    ensures
        r as int == saturate(v as int),
{
    if v < i64::MIN as i128 {
        i64::MIN
    } else if v > i64::MAX as i128 {
        i64::MAX
    } else {
        v as i64
    }
}

impl Fixed {
    /// The number that `raw` billionths make.
    pub fn from_raw(raw: i64) -> (r: Fixed)
        ensures
            r@ == raw,
    {
        Fixed { raw }
    }

    /// A whole number. Every `i32` fits.
    pub fn from_int(n: i32) -> (r: Fixed)
        ensures
            r@ == fx_int(n as int),
            r@ == n * 1_000_000_000,
    {
        let wide: i128 = n as i128 * 1_000_000_000;
        Fixed { raw: clamp(wide) }
    }

    pub fn zero() -> (r: Fixed)
        ensures
            r@ == 0,
    {
        Fixed { raw: 0 }
    }

    pub fn one() -> (r: Fixed)
        ensures
            r@ == SCALE,
    {
        Fixed { raw: SCALE }
    }

    /// The sum, clamped to the raw range.
    pub fn add(self, rhs: Fixed) -> (r: Fixed)
        ensures
            r@ == fx_add(self@, rhs@),
    {
        proof {
            reveal(fx_add);
        }
        Fixed { raw: clamp(self.raw as i128 + rhs.raw as i128) }
    }

    /// The difference, clamped to the raw range.
    pub fn sub(self, rhs: Fixed) -> (r: Fixed)
        ensures
            r@ == fx_sub(self@, rhs@),
    {
        proof {
            reveal(fx_sub);
        }
        Fixed { raw: clamp(self.raw as i128 - rhs.raw as i128) }
    }

    /// The number with its sign changed, clamped to the raw range.
    pub fn neg(self) -> (r: Fixed)
        ensures
            r@ == fx_neg(self@),
    {
        proof {
            reveal(fx_neg);
        }
        Fixed { raw: clamp(-(self.raw as i128)) }
    }

    /// The product, rounded toward zero and clamped to the raw range.
    pub fn mul(self, rhs: Fixed) -> (r: Fixed)
        ensures
            r@ == fx_mul(self@, rhs@),
    {
        let a: i128 = self.raw as i128;
        let b: i128 = rhs.raw as i128;
        assert(-0x4000_0000_0000_0000_0000_0000_0000_0000 <= a * b
            <= 0x4000_0000_0000_0000_0000_0000_0000_0000) by (nonlinear_arith)
            requires
                -0x8000_0000_0000_0000 <= a <= 0x8000_0000_0000_0000,
                -0x8000_0000_0000_0000 <= b <= 0x8000_0000_0000_0000,
        ;
        let wide: i128 = a * b;
        proof {
            reveal(fx_mul);
        }
        Fixed { raw: clamp(wide / 1_000_000_000) }
    }

    /// The quotient, rounded toward zero and clamped to the raw range.
    pub fn div(self, rhs: Fixed) -> (r: Fixed)
        requires
            rhs@ != 0,
        ensures
            r@ == fx_div(self@, rhs@),
    {
        let wide: i128 = self.raw as i128 * 1_000_000_000;
        proof {
            reveal(fx_div);
            lemma_quot_bound(wide as int, rhs.raw as int);
        }
        Fixed { raw: clamp(wide / (rhs.raw as i128)) }
    }

    pub fn is_zero(self) -> (r: bool)
        ensures
            r == (self@ == 0),
    {
        self.raw == 0
    }
}

/// Whether `r` is the floor of the square root of `n`.
pub open spec fn is_isqrt(n: int, r: int) -> bool {
    0 <= r && r * r <= n && n < (r + 1) * (r + 1)
}

/// Floor of the square root of a non-negative integer.
pub open spec fn isqrt(n: int) -> int {
    choose|r: int| is_isqrt(n, r)
}

/// At most one integer is the floored square root of `n`.
pub proof fn lemma_isqrt_unique(n: int, r1: int, r2: int)
    requires
        is_isqrt(n, r1),
        is_isqrt(n, r2),
    ensures
        r1 == r2,
{
    if r1 < r2 {
        assert((r1 + 1) * (r1 + 1) <= r2 * r2) by (nonlinear_arith)
            requires
                0 <= r1,
                r1 + 1 <= r2,
        ;
    } else if r2 < r1 {
        assert((r2 + 1) * (r2 + 1) <= r1 * r1) by (nonlinear_arith)
            requires
                0 <= r2,
                r2 + 1 <= r1,
        ;
    }
}

/// Every non-negative integer has a floored square root, and `isqrt` names it.
pub proof fn lemma_isqrt_exists(n: int)
    requires
        n >= 0,
    ensures
        is_isqrt(n, isqrt(n)),
    decreases n,
{
    if n == 0 {
        assert(is_isqrt(0, 0));
    } else {
        lemma_isqrt_exists(n - 1);
        let r = isqrt(n - 1);
        if (r + 1) * (r + 1) <= n {
            assert(n < (r + 2) * (r + 2)) by (nonlinear_arith)
                requires
                    0 <= r,
                    n - 1 < (r + 1) * (r + 1),
            ;
            assert(is_isqrt(n, r + 1));
        } else {
            assert(is_isqrt(n, r));
        }
    }
}

/// The floored square root of `n` is the one integer that satisfies [`is_isqrt`].
pub proof fn lemma_isqrt_is(n: int, r: int)
    requires
        is_isqrt(n, r),
    ensures
        isqrt(n) == r,
{
    assert(r * r >= 0) by (nonlinear_arith);
    lemma_isqrt_exists(n);
    lemma_isqrt_unique(n, r, isqrt(n));
}

/// Floor of the square root, by bisection.
pub fn isqrt_u128(n: u128) -> (r: u128)
    ensures
        r as int == isqrt(n as int),
        is_isqrt(n as int, r as int),
        r < 0x1_0000_0000_0000_0000,
{
    let mut lo: u128 = 0;
    let mut hi: u128 = 0x1_0000_0000_0000_0000;
    assert(0x1_0000_0000_0000_0000int * 0x1_0000_0000_0000_0000int
        == 0x1_0000_0000_0000_0000_0000_0000_0000_0000int) by (nonlinear_arith);
    while hi - lo > 1
        invariant
            lo < hi <= 0x1_0000_0000_0000_0000,
            lo * lo <= n,
            n < hi * hi,
        decreases hi - lo,
    {
        let mid: u128 = lo + (hi - lo) / 2;
        assert(mid * mid <= 0xffff_ffff_ffff_ffff_ffff_ffff_ffff_ffff) by (nonlinear_arith)
            requires
                0 <= mid <= 0xffff_ffff_ffff_ffff,
        ;
        if mid * mid <= n {
            lo = mid;
        } else {
            hi = mid;
        }
    }
    proof {
        lemma_isqrt_is(n as int, lo as int);
    }
    lo
}

} // verus!
