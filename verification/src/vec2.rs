//! Two-dimensional fixed-point vectors.

use vstd::prelude::*;
use crate::fixed::{
    clamp, floor_sqrt, fx_div, fx_mul, is_root, isqrt, over, sat_add, sat_neg, sat_sub, times,
};

verus! {

/// A point or displacement in the plane, in raw fixed-point counts.
#[derive(Clone, Copy, Debug, PartialEq, Eq, Structural)]
pub struct Vec2 {
    pub x: i64,
    pub y: i64,
}

impl Vec2 {
    /// The vector with both components zero.
    pub open spec fn spec_zero() -> Vec2 {
        Vec2 { x: 0, y: 0 }
    }

    /// Component-wise saturating sum.
    pub open spec fn spec_plus(self, other: Vec2) -> Vec2 {
        Vec2 { x: clamp(self.x + other.x) as i64, y: clamp(self.y + other.y) as i64 }
    }

    /// Component-wise saturating difference.
    pub open spec fn spec_minus(self, other: Vec2) -> Vec2 {
        Vec2 { x: clamp(self.x - other.x) as i64, y: clamp(self.y - other.y) as i64 }
    }

    /// Component-wise saturating negation.
    pub open spec fn spec_negated(self) -> Vec2 {
        Vec2 { x: clamp(-self.x) as i64, y: clamp(-self.y) as i64 }
    }

    /// Each component multiplied by the fixed-point scalar `k`.
    pub open spec fn spec_scaled(self, k: i64) -> Vec2 {
        Vec2 { x: times(self.x as int, k as int) as i64, y: times(self.y as int, k as int) as i64 }
    }

    /// Each component divided by the non-zero fixed-point scalar `k`.
    pub open spec fn spec_divided(self, k: i64) -> Vec2 {
        Vec2 { x: over(self.x as int, k as int) as i64, y: over(self.y as int, k as int) as i64 }
    }

    /// Sum of the squares of the raw components.
    pub open spec fn norm_squared(self) -> int {
        self.x * self.x + self.y * self.y
    }

    /// Euclidean length, rounded down to a whole raw count.
    pub open spec fn spec_length(self) -> i64 {
        clamp(floor_sqrt(self.norm_squared())) as i64
    }

    /// The vector divided by its own length, or zero where that length is zero.
    pub open spec fn spec_normalize_or_zero(self) -> Vec2 {
        if self.spec_length() == 0 {
            Vec2::spec_zero()
        } else {
            self.spec_divided(self.spec_length())
        }
    }

    /// The vector with the given raw components.
    pub fn new(x: i64, y: i64) -> (r: Vec2)
        ensures
            r == (Vec2 { x, y }),
    {
        Vec2 { x, y }
    }

    /// The zero vector.
    pub fn zero() -> (r: Vec2)
        ensures
            r == Vec2::spec_zero(),
    {
        Vec2 { x: 0, y: 0 }
    }

    /// Component-wise saturating sum.
    pub fn plus(self, other: Vec2) -> (r: Vec2)
        ensures
            r == self.spec_plus(other),
    {
        Vec2 { x: sat_add(self.x, other.x), y: sat_add(self.y, other.y) }
    }

    /// Component-wise saturating difference.
    pub fn minus(self, other: Vec2) -> (r: Vec2)
        ensures
            r == self.spec_minus(other),
    {
        Vec2 { x: sat_sub(self.x, other.x), y: sat_sub(self.y, other.y) }
    }

    /// Component-wise saturating negation.
    pub fn negated(self) -> (r: Vec2)
        ensures
            r == self.spec_negated(),
    {
        Vec2 { x: sat_neg(self.x), y: sat_neg(self.y) }
    }

    /// The vector times the fixed-point scalar `k`.
    pub fn scaled(self, k: i64) -> (r: Vec2)
        ensures
            r == self.spec_scaled(k),
    {
        Vec2 { x: fx_mul(self.x, k), y: fx_mul(self.y, k) }
    }

    /// The vector over the non-zero fixed-point scalar `k`.
    pub fn divided(self, k: i64) -> (r: Vec2)
        requires
            k != 0,
        ensures
            r == self.spec_divided(k),
    {
        Vec2 { x: fx_div(self.x, k), y: fx_div(self.y, k) }
    }

    /// Euclidean length, rounded down; zero only for the zero vector.
    pub fn length(self) -> (r: i64)
        ensures
            r == self.spec_length(),
            r >= 0,
            r == 0 <==> self == Vec2::spec_zero(),
            r < i64::MAX ==> is_root(self.norm_squared(), r as int),
    {
        let x: i128 = self.x as i128;
        let y: i128 = self.y as i128;
        assert(0 <= x * x <= 0x4000_0000_0000_0000_0000_0000_0000_0000) by (nonlinear_arith)
            requires
                -0x8000_0000_0000_0000 <= x <= 0x8000_0000_0000_0000,
        ;
        assert(0 <= y * y <= 0x4000_0000_0000_0000_0000_0000_0000_0000) by (nonlinear_arith)
            requires
                -0x8000_0000_0000_0000 <= y <= 0x8000_0000_0000_0000,
        ;
        let total: u128 = (x * x) as u128 + (y * y) as u128;
        let root: u64 = isqrt(total);
        proof {
            lemma_zero_length(self);
        }
        if root > i64::MAX as u64 {
            i64::MAX
        } else {
            root as i64
        }
    }

    /// The unit vector along this one, or zero for the zero vector.
    pub fn normalize_or_zero(self) -> (r: Vec2)
        ensures
            r == self.spec_normalize_or_zero(),
    {
        let len: i64 = self.length();
        if len == 0 {
            Vec2::zero()
        } else {
            self.divided(len)
        }
    }
}

/// Only the zero vector has length zero, and no length is negative.
pub proof fn lemma_zero_length(v: Vec2)
    ensures
        v.spec_length() >= 0,
        v.spec_length() == 0 <==> v == Vec2::spec_zero(),
{
    let n = v.norm_squared();
    let x = v.x as int;
    let y = v.y as int;
    assert(x * x >= 0 && (x != 0 ==> x * x >= 1)) by (nonlinear_arith);
    assert(y * y >= 0 && (y != 0 ==> y * y >= 1)) by (nonlinear_arith);
    crate::fixed::lemma_floor_sqrt_exists(n);
    let r = floor_sqrt(n);
    if r == 0 {
        assert(n < 1) by (nonlinear_arith)
            requires
                n < (r + 1) * (r + 1),
                r == 0,
        ;
    } else {
        assert(r * r >= 1) by (nonlinear_arith)
            requires
                r >= 1,
        ;
    }
}

} // verus!
