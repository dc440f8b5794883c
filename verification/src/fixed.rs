//! Saturating fixed-point arithmetic on `i64` counts of `1 / SCALE`.

use vstd::prelude::*;

verus! {

/// Number of raw counts that make up one unit.
pub const SCALE: i64 = 1_000_000;

/// The nearest value to `v` that an `i64` can hold.
pub open spec fn clamp(v: int) -> int {
    if v < i64::MIN {
        i64::MIN as int
    } else if v > i64::MAX {
        i64::MAX as int
    } else {
        v
    }
}

/// Absolute value.
pub open spec fn magnitude(v: int) -> int {
    if v < 0 {
        -v
    } else {
        v
    }
}

/// Quotient of `a` by a non-zero `b`, rounded toward zero.
pub open spec fn trunc_div(a: int, b: int) -> int {
    if b > 0 {
        if a >= 0 {
            a / b
        } else {
            -((-a) / b)
        }
    } else {
        if a >= 0 {
            -(a / (-b))
        } else {
            (-a) / (-b)
        }
    }
}

/// Fixed-point product of two raw values.
pub open spec fn times(a: int, b: int) -> int {
    clamp(trunc_div(a * b, SCALE as int))
}

/// Fixed-point quotient of two raw values, `b` non-zero.
pub open spec fn over(a: int, b: int) -> int {
    clamp(trunc_div(a * SCALE, b))
}

/// `r` is the largest integer whose square does not exceed `n`.
pub open spec fn is_root(n: int, r: int) -> bool {
    0 <= r && r * r <= n < (r + 1) * (r + 1)
}

/// Integer square root of a non-negative `n`, rounded down.
pub open spec fn floor_sqrt(n: int) -> int {
    choose|r: int| is_root(n, r)
}

/// A number has at most one integer square root.
pub proof fn lemma_root_unique(n: int, r: int, s: int)
    requires
        is_root(n, r),
        is_root(n, s),
    ensures
        r == s,
{
    if r < s {
        assert((r + 1) * (r + 1) <= s * s) by (nonlinear_arith)
            requires
                0 <= r + 1 <= s,
        ;
    }
    if s < r {
        assert((s + 1) * (s + 1) <= r * r) by (nonlinear_arith)
            requires
                0 <= s + 1 <= r,
        ;
    }
}

/// Whatever meets `is_root` is the value of `floor_sqrt`.
pub proof fn lemma_floor_sqrt_is(n: int, r: int)
    requires
        is_root(n, r),
    ensures
        floor_sqrt(n) == r,
{
    lemma_root_unique(n, r, floor_sqrt(n));
}

/// Every non-negative number has an integer square root.
pub proof fn lemma_floor_sqrt_exists(n: int)
    requires
        n >= 0,
    ensures
        is_root(n, floor_sqrt(n)),
    decreases n,
{
    if n == 0 {
        assert(is_root(0, 0));
    } else {
        lemma_floor_sqrt_exists(n - 1);
        let r = floor_sqrt(n - 1);
        if (r + 1) * (r + 1) <= n {
            assert(n < (r + 2) * (r + 2)) by (nonlinear_arith)
                requires
                    n - 1 < (r + 1) * (r + 1),
                    r >= 0,
            ;
            assert(is_root(n, r + 1));
        } else {
            assert(is_root(n, r));
        }
    }
}

/// Brings a wide intermediate result back into an `i64`.
pub fn saturate(v: i128) -> (r: i64)
    ensures
        r == clamp(v as int),
{
    if v < i64::MIN as i128 {
        i64::MIN
    } else if v > i64::MAX as i128 {
        i64::MAX
    } else {
        v as i64
    }
}

/// Saturating sum.
pub fn sat_add(a: i64, b: i64) -> (r: i64)
    ensures
        r == clamp(a + b),
{
    saturate(a as i128 + b as i128)
}

/// Saturating difference.
pub fn sat_sub(a: i64, b: i64) -> (r: i64)
    ensures
        r == clamp(a - b),
{
    saturate(a as i128 - b as i128)
}

/// Saturating negation: the least `i64` maps to the greatest.
pub fn sat_neg(a: i64) -> (r: i64)
    ensures
        r == clamp(-a),
{
    saturate(-(a as i128))
}

/// Magnitude of a wide value; that of the least value does not fit its own type.
fn magnitude_of(v: i128) -> (m: u128)
    ensures
        m == magnitude(v as int),
{
    if v < 0 {
        (-(v + 1)) as u128 + 1
    } else {
        v as u128
    }
}

/// Quotient rounded toward zero: the quotient of the magnitudes, with the
/// sign of the exact quotient.
pub fn quotient(num: i128, den: i128) -> (r: i128)
    requires
        den != 0,
        !(num == i128::MIN && den == -1),
    ensures
        r == trunc_div(num as int, den as int),
{
    let n: u128 = magnitude_of(num);
    let d: u128 = magnitude_of(den);
    let q: u128 = n / d;
    assert(q <= n && (d >= 2 && n >= 1 ==> q < n)) by (nonlinear_arith)
        requires
            q == n / d,
            d >= 1,
    ;
    if (num < 0) != (den < 0) {
        if q == 0 {
            0
        } else {
            -((q - 1) as i128) - 1
        }
    } else {
        q as i128
    }
}

/// Saturating fixed-point product.
pub fn fx_mul(a: i64, b: i64) -> (r: i64)
    ensures
        r == times(a as int, b as int),
{
    assert(-0x4000_0000_0000_0000_0000_0000_0000_0000 <= a * b
        <= 0x4000_0000_0000_0000_0000_0000_0000_0000) by (nonlinear_arith)
        requires
            -0x8000_0000_0000_0000 <= a <= 0x8000_0000_0000_0000,
            -0x8000_0000_0000_0000 <= b <= 0x8000_0000_0000_0000,
    ;
    let wide: i128 = (a as i128) * (b as i128);
    saturate(quotient(wide, SCALE as i128))
}

/// Saturating fixed-point quotient.
pub fn fx_div(a: i64, b: i64) -> (r: i64)
    requires
        b != 0,
    ensures
        r == over(a as int, b as int),
{
    assert(-0x8000_0000_0000_0000 * 1_000_000 <= a * SCALE <= 0x8000_0000_0000_0000 * 1_000_000);
    let wide: i128 = (a as i128) * (SCALE as i128);
    saturate(quotient(wide, b as i128))
}

/// Integer square root, rounded down.
pub fn isqrt(n: u128) -> (r: u64)
    ensures
        r == floor_sqrt(n as int),
        is_root(n as int, r as int),
{
    let mut lo: u128 = 0;
    let mut hi: u128 = 0x1_0000_0000_0000_0000;
    assert(hi * hi > n) by (nonlinear_arith)
        requires
            hi == 0x1_0000_0000_0000_0000,
            n <= 0xffff_ffff_ffff_ffff_ffff_ffff_ffff_ffff,
    ;
    assert(lo * lo <= n) by (nonlinear_arith)
        requires
            lo == 0,
            n >= 0,
    ;
    while hi - lo > 1
        invariant
            lo < hi <= 0x1_0000_0000_0000_0000,
            lo * lo <= n < hi * hi,
        decreases hi - lo,
    {
        let mid: u128 = lo + (hi - lo) / 2;
        assert(mid * mid <= 0xffff_ffff_ffff_ffff_ffff_ffff_ffff_ffff) by (nonlinear_arith)
            requires
                0 <= mid <= 0xffff_ffff_ffff_ffff,
        ;
        if mid * mid <= n {
            lo = mid;
        } else {
            hi = mid;
        }
    }
    assert(hi == lo + 1);
    proof {
        lemma_floor_sqrt_is(n as int, lo as int);
    }
    lo as u64
}

} // verus!
