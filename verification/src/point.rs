//! A 2D point with exact integer coordinates and component-wise
//! vector arithmetic.

use vstd::prelude::*;

verus! {

use crate::sqrt::is_sqrt_floor;
use crate::sqrt::isqrt;

/// Mathematical model of a point: a pair of unbounded integers.
pub struct PointM {
    pub x: int,
    pub y: int,
}

/// The model of the origin, `(0, 0)`.
pub open spec fn origin_m() -> PointM {
    PointM { x: 0, y: 0 }
}

/// Component-wise sum of two model points.
pub open spec fn add_m(a: PointM, b: PointM) -> PointM {
    PointM { x: a.x + b.x, y: a.y + b.y }
}

/// Component-wise difference `a - b` of two model points.
pub open spec fn sub_m(a: PointM, b: PointM) -> PointM {
    PointM { x: a.x - b.x, y: a.y - b.y }
}

/// A model point scaled by `s` on the right, `p * s`.
pub open spec fn scale_m(p: PointM, s: int) -> PointM {
    PointM { x: p.x * s, y: p.y * s }
}

/// A model point scaled by `s` on the left, `s * p`.
pub open spec fn scale_left_m(s: int, p: PointM) -> PointM {
    PointM { x: s * p.x, y: s * p.y }
}

/// Integer division rounded toward zero, as the coordinate type's `/`
/// computes it (`int` division `/` rounds toward negative infinity
/// instead).
pub open spec fn trunc_div(x: int, d: int) -> int {
    if x == 0 {
        0
    } else if x > 0 && d > 0 {
        x / d
    } else if x < 0 && d < 0 {
        (x * -1) / (d * -1)
    } else if x < 0 {
        ((x * -1) / d) * -1
    } else {
        (x / (d * -1)) * -1
    }
}

/// A model point divided component-wise by `s`, rounding toward zero.
pub open spec fn div_m(p: PointM, s: int) -> PointM {
    PointM { x: trunc_div(p.x, s), y: trunc_div(p.y, s) }
}

/// The squared Euclidean norm of a model point, `x*x + y*y`.
pub open spec fn norm_sq(p: PointM) -> int {
    p.x * p.x + p.y * p.y
}

/// A 2D coordinate pair supporting vector arithmetic.
///
/// Immutable value type; equality is exact field-wise comparison.
#[derive(Clone, Copy, Debug, PartialEq, Eq, Structural)]
pub struct Point {
    pub x: i64,
    pub y: i64,
}

impl View for Point {
    type V = PointM;

    open spec fn view(&self) -> PointM {
        PointM { x: self.x as int, y: self.y as int }
    }
}

impl Point {
    /// The point at the origin, `(0, 0)`.
    pub fn origin() -> (r: Point)
        ensures
            r@ == origin_m(),
    {
        Point { x: 0, y: 0 }
    }

    /// Euclidean norm of the point treated as a vector from the
    /// origin: the square root of `x*x + y*y`, rounded toward zero.
    pub fn magnitude(self) -> (r: u64)
        ensures
            is_sqrt_floor(norm_sq(self@), r as int),
    {
        let xi: i128 = self.x as i128;
        let yi: i128 = self.y as i128;
        proof {
            lemma_square_in_range(xi as int);
            lemma_square_in_range(yi as int);
        }
        let xx: u128 = (xi * xi) as u128;
        let yy: u128 = (yi * yi) as u128;
        isqrt(xx + yy)
    }

    /// Component-wise sum; both coordinate sums must fit the
    /// coordinate type.
    pub fn add(self, other: Point) -> (r: Point)
        requires
            i64::MIN <= self@.x + other@.x <= i64::MAX,
            i64::MIN <= self@.y + other@.y <= i64::MAX,
        ensures
            r@ == add_m(self@, other@),
    {
        Point { x: self.x + other.x, y: self.y + other.y }
    }

    /// Component-wise difference `self - other`; both coordinate
    /// differences must fit the coordinate type.
    pub fn sub(self, other: Point) -> (r: Point)
        requires
            i64::MIN <= self@.x - other@.x <= i64::MAX,
            i64::MIN <= self@.y - other@.y <= i64::MAX,
        ensures
            r@ == sub_m(self@, other@),
    {
        Point { x: self.x - other.x, y: self.y - other.y }
    }

    /// Each coordinate scaled by `s`; both products must fit the
    /// coordinate type. Commutes with [`scale`]: see
    /// [`lemma_mul_commutes`].
    pub fn mul(self, s: i64) -> (r: Point)
        requires
            i64::MIN <= self@.x * s <= i64::MAX,
            i64::MIN <= self@.y * s <= i64::MAX,
        ensures
            r@ == scale_m(self@, s as int),
    {
        Point { x: self.x * s, y: self.y * s }
    }

    /// Each coordinate divided by `s`, rounding toward zero. The
    /// divisor must be nonzero, and the most negative coordinate
    /// cannot be divided by `-1` (its exact quotient does not fit the
    /// coordinate type).
    pub fn div(self, s: i64) -> (r: Point)
        requires
            s != 0,
            !(self@.x == i64::MIN && s == -1),
            !(self@.y == i64::MIN && s == -1),
        ensures
            r@ == div_m(self@, s as int),
    {
        proof {
            lemma_trunc_div_in_range(self@.x, s as int);
            lemma_trunc_div_in_range(self@.y, s as int);
        }
        Point { x: self.x.checked_div(s).unwrap(), y: self.y.checked_div(s).unwrap() }
    }
}

/// The square of a coordinate is nonnegative and never exceeds the
/// square of the largest coordinate magnitude.
proof fn lemma_square_in_range(a: int)
    requires
        -0x8000_0000_0000_0000 <= a <= 0x8000_0000_0000_0000,
    ensures
        0 <= a * a <= 0x4000_0000_0000_0000_0000_0000_0000_0000,
{
    assert(0 <= a * a <= 0x8000_0000_0000_0000int * 0x8000_0000_0000_0000int) by (nonlinear_arith)
        requires
            -0x8000_0000_0000_0000 <= a <= 0x8000_0000_0000_0000,
    ;
}

/// A quotient rounded toward zero is no larger in magnitude than the
/// dividend, so it stays inside the coordinate type except when the
/// most negative coordinate is divided by `-1`.
proof fn lemma_trunc_div_in_range(x: int, d: int)
    requires
        i64::MIN <= x <= i64::MAX,
        i64::MIN <= d <= i64::MAX,
        d != 0,
        !(x == i64::MIN && d == -1),
    ensures
        i64::MIN <= trunc_div(x, d) <= i64::MAX,
{
    broadcast use {
        vstd::arithmetic::div_mod::lemma_div_pos_is_pos,
        vstd::arithmetic::div_mod::lemma_div_nonincreasing,
        vstd::arithmetic::div_mod::lemma_div_basics_2,
        vstd::arithmetic::div_mod::lemma_div_decreases,
    };

    if x == 0 {
    } else if x > 0 && d > 0 {
        assert(0 <= x / d <= x);
    } else if x < 0 && d < 0 {
        if d == -1 {
            assert((x * -1) / (d * -1) == x * -1);
        } else {
            assert((x * -1) / (d * -1) < x * -1);
        }
    } else if x < 0 {
        assert(0 <= (x * -1) / d <= x * -1);
    } else {
        assert(0 <= x / (d * -1) <= x);
    }
}

/// Each coordinate of `p` scaled by `s`, with the scalar on the left;
/// both products must fit the coordinate type. Commutes with
/// [`Point::mul`]: see [`lemma_mul_commutes`].
pub fn scale(s: i64, p: Point) -> (r: Point)
    requires
        i64::MIN <= s * p@.x <= i64::MAX,
        i64::MIN <= s * p@.y <= i64::MAX,
    ensures
        r@ == scale_left_m(s as int, p@),
{
    Point { x: s * p.x, y: s * p.y }
}

/// Adding any point to the origin, or subtracting the origin from it,
/// leaves the point unchanged.
pub proof fn lemma_origin_is_identity(p: Point)
    ensures
        add_m(origin_m(), p@) == p@,
        sub_m(p@, origin_m()) == p@,
{
}

/// Scaling a point gives the same result whichever side of the
/// product the scalar stands on: [`Point::mul`] and [`scale`] agree.
pub proof fn lemma_mul_commutes(p: Point, s: i64)
    ensures
        scale_m(p@, s as int) == scale_left_m(s as int, p@),
{
    assert(p@.x * (s as int) == (s as int) * p@.x) by (nonlinear_arith);
    assert(p@.y * (s as int) == (s as int) * p@.y) by (nonlinear_arith);
}

/// Dividing an exact multiple back by the factor recovers it: with
/// rounding toward zero, `(x * d) / d == x` for any nonzero `d`.
proof fn lemma_trunc_div_multiple(x: int, d: int)
    requires
        d != 0,
    ensures
        trunc_div(x * d, d) == x,
{
    if x == 0 {
        assert(x * d == 0) by (nonlinear_arith)
            requires
                x == 0,
        ;
    } else if x > 0 && d > 0 {
        assert(x * d > 0) by (nonlinear_arith)
            requires
                x > 0 && d > 0,
        ;
        assert(x * d == d * x) by (nonlinear_arith);
        vstd::arithmetic::div_mod::lemma_div_multiples_vanish(x, d);
    } else if x > 0 {
        assert(x * d < 0) by (nonlinear_arith)
            requires
                x > 0 && d < 0,
        ;
        assert((x * d) * -1 == (d * -1) * x) by (nonlinear_arith);
        vstd::arithmetic::div_mod::lemma_div_multiples_vanish(x, d * -1);
    } else if d > 0 {
        assert(x * d < 0) by (nonlinear_arith)
            requires
                x < 0 && d > 0,
        ;
        assert((x * d) * -1 == d * (x * -1)) by (nonlinear_arith);
        vstd::arithmetic::div_mod::lemma_div_multiples_vanish(x * -1, d);
    } else {
        assert(x * d > 0) by (nonlinear_arith)
            requires
                x < 0 && d < 0,
        ;
        assert(x * d == (d * -1) * (x * -1)) by (nonlinear_arith);
        vstd::arithmetic::div_mod::lemma_div_multiples_vanish(x * -1, d * -1);
    }
}

/// Scaling a point by a nonzero scalar and then dividing by the same
/// scalar returns the original point exactly.
pub proof fn lemma_div_undoes_mul(p: Point, s: i64)
    requires
        s != 0,
    ensures
        div_m(scale_m(p@, s as int), s as int) == p@,
{
    lemma_trunc_div_multiple(p@.x, s as int);
    lemma_trunc_div_multiple(p@.y, s as int);
}

} // verus!
