//! Points, rectangles and arithmetic that saturates at the ends of the
//! coordinate range.
//!
//! A coordinate is an `i64`. The two ends of its range stand for a canvas edge
//! that lies arbitrarily far away, so sums and differences stop there rather
//! than wrap around.

use vstd::arithmetic::div_mod::{
    lemma_fundamental_div_mod, lemma_fundamental_div_mod_converse_div, lemma_mod_bound,
};
use vstd::prelude::*;

verus! {

/// `x` brought into the range of a coordinate.
pub open spec fn clamp_i64(x: int) -> int {
    if x < i64::MIN {
        i64::MIN as int
    } else if x > i64::MAX {
        i64::MAX as int
    } else {
        x
    }
}

/// The larger of two integers.
pub open spec fn max_int(a: int, b: int) -> int {
    if a >= b {
        a
    } else {
        b
    }
}

/// The smaller of two integers.
pub open spec fn min_int(a: int, b: int) -> int {
    if a <= b {
        a
    } else {
        b
    }
}

/// Brings a wide integer into the range of a coordinate.
pub fn clamp_to_i64(x: i128) -> (r: i64)
    ensures
        r == clamp_i64(x as int),
{
    if x < i64::MIN as i128 {
        i64::MIN
    } else if x > i64::MAX as i128 {
        i64::MAX
    } else {
        x as i64
    }
}

/// Sum of two coordinates, saturating.
pub fn sat_add(a: i64, b: i64) -> (r: i64)
    ensures
        r == clamp_i64(a + b),
{
    clamp_to_i64(a as i128 + b as i128)
}

/// Difference of two coordinates, saturating.
pub fn sat_sub(a: i64, b: i64) -> (r: i64)
    ensures
        r == clamp_i64(a - b),
{
    clamp_to_i64(a as i128 - b as i128)
}

/// The larger of two coordinates.
pub fn max_i64(a: i64, b: i64) -> (r: i64)
    ensures
        r == max_int(a as int, b as int),
{
    if a >= b {
        a
    } else {
        b
    }
}

/// The smaller of two coordinates.
pub fn min_i64(a: i64, b: i64) -> (r: i64)
    ensures
        r == min_int(a as int, b as int),
{
    if a <= b {
        a
    } else {
        b
    }
}

/// Quotient of `a` by `b`, rounded down.
pub fn div_floor(a: i128, b: i128) -> (q: i128)
    requires
        b > 0,
    ensures
        q == a / b,
{
    if a >= 0 {
        a / b
    } else {
        let m: i128 = -(a + 1);
        let k: i128 = m / b;
        proof {
            let r = m as int % b as int;
            lemma_fundamental_div_mod(m as int, b as int);
            lemma_mod_bound(m as int, b as int);
            assert(a as int == (-(k as int) - 1) * b + (b - r - 1)) by (nonlinear_arith)
                requires
                    m == b * k + r,
                    a == -m - 1,
            ;
            lemma_fundamental_div_mod_converse_div(a as int, b as int, -(k as int) - 1, b - r - 1);
        }
        -k - 1
    }
}

/// Adding amounts that are not negative one after the other, saturating each
/// time, gives the saturated sum.
pub proof fn lemma_clamp_add_twice(a: int, b: int, c: int)
    requires
        b >= 0,
        c >= 0,
        a >= i64::MIN,
    ensures
        clamp_i64(clamp_i64(a + b) + c) == clamp_i64(a + b + c),
{
}

/// A position on the canvas.
#[derive(Clone, Copy, Debug, PartialEq, Eq, Structural)]
pub struct Pos {
    pub x: i64,
    pub y: i64,
}

/// An axis-aligned rectangle, given by two opposite corners. It holds the
/// positions from `min` to `max`, both included, and none when a `max` lies
/// before its `min`.
#[derive(Clone, Copy, Debug, PartialEq, Eq, Structural)]
pub struct Rect {
    pub min_x: i64,
    pub min_y: i64,
    pub max_x: i64,
    pub max_y: i64,
}

impl Rect {
    /// Whether the rectangle holds the position `p`.
    pub open spec fn spec_contains(&self, p: Pos) -> bool {
        self.min_x <= p.x <= self.max_x && self.min_y <= p.y <= self.max_y
    }

    /// Whether the rectangle holds no position because a `max` lies before its
    /// `min`.
    pub open spec fn spec_is_negative(&self) -> bool {
        self.max_x < self.min_x || self.max_y < self.min_y
    }

    /// The part that the rectangle shares with `other`.
    pub open spec fn spec_intersect(&self, other: Rect) -> Rect {
        Rect {
            min_x: max_int(self.min_x as int, other.min_x as int) as i64,
            min_y: max_int(self.min_y as int, other.min_y as int) as i64,
            max_x: min_int(self.max_x as int, other.max_x as int) as i64,
            max_y: min_int(self.max_y as int, other.max_y as int) as i64,
        }
    }

    /// Whether the rectangle holds the position `p`.
    #[verifier::when_used_as_spec(spec_contains)]
    pub fn contains(&self, p: Pos) -> (inside: bool)
        ensures
            inside == self.spec_contains(p),
    {
        self.min_x <= p.x && p.x <= self.max_x && self.min_y <= p.y && p.y <= self.max_y
    }

    /// Whether a `max` of the rectangle lies before its `min`.
    #[verifier::when_used_as_spec(spec_is_negative)]
    pub fn is_negative(&self) -> (negative: bool)
        ensures
            negative == self.spec_is_negative(),
    {
        self.max_x < self.min_x || self.max_y < self.min_y
    }

    /// The part that the rectangle shares with `other`.
    #[verifier::when_used_as_spec(spec_intersect)]
    pub fn intersect(&self, other: Rect) -> (shared: Rect)
        ensures
            shared == self.spec_intersect(other),
    {
        Rect {
            min_x: max_i64(self.min_x, other.min_x),
            min_y: max_i64(self.min_y, other.min_y),
            max_x: min_i64(self.max_x, other.max_x),
            max_y: min_i64(self.max_y, other.max_y),
        }
    }
}

} // verus!
