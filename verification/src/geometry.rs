//! Points and Bezier segments over fixed-point (integer) coordinates, with
//! the midpoint subdivision primitives the approximators are built on.

use vstd::prelude::*;

verus! {

/// Largest coordinate magnitude the library accepts. Keeping every
/// coordinate within this range makes all intermediate products
/// (squared deviation lengths, scaled control points) fit in `i64`.
pub const COORD_LIMIT: i64 = 16777216;

/// Largest error bound the library accepts; `36 * bound * bound` must
/// fit in `i64`.
pub const ERROR_BOUND_LIMIT: i64 = 67108864;

/// Mathematical model of a point: unbounded integer coordinates.
pub ghost struct PointV {
    pub x: int,
    pub y: int,
}

/// A 2D point (or vector) in fixed-point units.
#[derive(Clone, Copy, PartialEq, Eq, Structural, Debug)]
pub struct Point {
    pub x: i64,
    pub y: i64,
}

impl View for Point {
    type V = PointV;

    open spec fn view(&self) -> PointV {
        PointV { x: self.x as int, y: self.y as int }
    }
}

/// Mathematical model of a cubic Bezier segment.
pub ghost struct CubicV {
    pub from: PointV,
    pub ctrl1: PointV,
    pub ctrl2: PointV,
    pub to: PointV,
}

/// A cubic Bezier segment: endpoints and two control points.
#[derive(Clone, Copy, PartialEq, Eq, Structural, Debug)]
pub struct CubicSegment {
    pub from: Point,
    pub ctrl1: Point,
    pub ctrl2: Point,
    pub to: Point,
}

impl View for CubicSegment {
    type V = CubicV;

    open spec fn view(&self) -> CubicV {
        CubicV { from: self.from@, ctrl1: self.ctrl1@, ctrl2: self.ctrl2@, to: self.to@ }
    }
}

/// Mathematical model of a quadratic Bezier segment.
pub ghost struct QuadV {
    pub from: PointV,
    pub ctrl: PointV,
    pub to: PointV,
}

/// A quadratic Bezier segment: endpoints and one control point.
#[derive(Clone, Copy, PartialEq, Eq, Structural, Debug)]
pub struct QuadraticSegment {
    pub from: Point,
    pub ctrl: Point,
    pub to: Point,
}

impl View for QuadraticSegment {
    type V = QuadV;

    open spec fn view(&self) -> QuadV {
        QuadV { from: self.from@, ctrl: self.ctrl@, to: self.to@ }
    }
}

/// Halving with rounding toward zero: the fixed-point counterpart of
/// multiplying by one half.
pub open spec fn half_v(a: int) -> int {
    if a >= 0 {
        a / 2
    } else {
        -((-a) / 2)
    }
}

/// Fixed-point midpoint of two scalars.
pub open spec fn mid_v(a: int, b: int) -> int {
    half_v(a + b)
}

pub open spec fn pt_bounded(p: PointV, m: int) -> bool {
    -m <= p.x <= m && -m <= p.y <= m
}

pub open spec fn cubic_bounded(c: CubicV, m: int) -> bool {
    pt_bounded(c.from, m) && pt_bounded(c.ctrl1, m) && pt_bounded(c.ctrl2, m) && pt_bounded(c.to, m)
}

pub open spec fn quad_bounded(q: QuadV, m: int) -> bool {
    pt_bounded(q.from, m) && pt_bounded(q.ctrl, m) && pt_bounded(q.to, m)
}

pub proof fn lemma_half_bound(a: int, m: int)
    requires
        0 <= m,
        -m <= a <= m,
    ensures
        -m <= half_v(a) <= m,
        a >= 0 ==> 0 <= half_v(a),
        a <= 0 ==> half_v(a) <= 0,
{
}

pub proof fn lemma_mid_bound(a: int, b: int, m: int)
    requires
        0 <= m,
        -m <= a <= m,
        -m <= b <= m,
    ensures
        -m <= mid_v(a, b) <= m,
{
    lemma_half_bound(a + b, 2 * m);
    assert(-(2 * m) <= a + b <= 2 * m);
    assert(a + b >= 0 ==> (a + b) / 2 <= m);
    assert(a + b < 0 ==> (-(a + b)) / 2 <= m);
}

/// Midpoint of two points, each coordinate rounded toward zero.
pub open spec fn mid_pv(p: PointV, q: PointV) -> PointV {
    PointV { x: mid_v(p.x, q.x), y: mid_v(p.y, q.y) }
}

pub proof fn lemma_mid_pt_bound(p: PointV, q: PointV, m: int)
    requires
        0 <= m,
        pt_bounded(p, m),
        pt_bounded(q, m),
    ensures
        pt_bounded(mid_pv(p, q), m),
{
    lemma_mid_bound(p.x, q.x, m);
    lemma_mid_bound(p.y, q.y, m);
}

/// First half of a cubic split at parameter one half (de Casteljau).
pub open spec fn split_l_v(c: CubicV) -> CubicV {
    let p01 = mid_pv(c.from, c.ctrl1);
    let p12 = mid_pv(c.ctrl1, c.ctrl2);
    let p23 = mid_pv(c.ctrl2, c.to);
    let p012 = mid_pv(p01, p12);
    let p123 = mid_pv(p12, p23);
    let p0123 = mid_pv(p012, p123);
    CubicV { from: c.from, ctrl1: p01, ctrl2: p012, to: p0123 }
}

/// Second half of a cubic split at parameter one half (de Casteljau).
pub open spec fn split_r_v(c: CubicV) -> CubicV {
    let p01 = mid_pv(c.from, c.ctrl1);
    let p12 = mid_pv(c.ctrl1, c.ctrl2);
    let p23 = mid_pv(c.ctrl2, c.to);
    let p012 = mid_pv(p01, p12);
    let p123 = mid_pv(p12, p23);
    let p0123 = mid_pv(p012, p123);
    CubicV { from: p0123, ctrl1: p123, ctrl2: p23, to: c.to }
}

pub proof fn lemma_split_bounded(c: CubicV, m: int)
    requires
        0 <= m,
        cubic_bounded(c, m),
    ensures
        cubic_bounded(split_l_v(c), m),
        cubic_bounded(split_r_v(c), m),
{
    let p01 = mid_pv(c.from, c.ctrl1);
    let p12 = mid_pv(c.ctrl1, c.ctrl2);
    let p23 = mid_pv(c.ctrl2, c.to);
    lemma_mid_pt_bound(c.from, c.ctrl1, m);
    lemma_mid_pt_bound(c.ctrl1, c.ctrl2, m);
    lemma_mid_pt_bound(c.ctrl2, c.to, m);
    let p012 = mid_pv(p01, p12);
    let p123 = mid_pv(p12, p23);
    lemma_mid_pt_bound(p01, p12, m);
    lemma_mid_pt_bound(p12, p23, m);
    lemma_mid_pt_bound(p012, p123, m);
}

/// The first deviation vector of a cubic from its single-quadratic fit:
/// `(from - 3 ctrl1) + (3 ctrl2 - to)`.
pub open spec fn dev0_v(c: CubicV) -> PointV {
    PointV {
        x: c.from.x - 3 * c.ctrl1.x + 3 * c.ctrl2.x - c.to.x,
        y: c.from.y - 3 * c.ctrl1.y + 3 * c.ctrl2.y - c.to.y,
    }
}

/// The second deviation vector: `(3 ctrl1 - from) + (to - 3 ctrl2)`,
/// the negation of the first.
pub open spec fn dev1_v(c: CubicV) -> PointV {
    PointV {
        x: 3 * c.ctrl1.x - c.from.x + c.to.x - 3 * c.ctrl2.x,
        y: 3 * c.ctrl1.y - c.from.y + c.to.y - 3 * c.ctrl2.y,
    }
}

/// Squared Euclidean length.
pub open spec fn sq_len_v(p: PointV) -> int {
    p.x * p.x + p.y * p.y
}

/// The acceptance test of the subdivision loop: the control-polygon
/// distance bound `max(|dev0|, |dev1|) / 6` is below the error bound.
/// Stated without square roots: `|d| / 6 < eb` iff `|d|^2 < 36 eb^2`.
pub open spec fn seg_within_bound(c: CubicV, eb: int) -> bool {
    sq_len_v(dev0_v(c)) < 36 * eb * eb && sq_len_v(dev1_v(c)) < 36 * eb * eb
}

/// Control point of the single-quadratic fit: the midpoint of the two
/// projected control points `(3 ctrl1 - from) / 2` and `(3 ctrl2 - to) / 2`.
pub open spec fn quad_ctrl_v(c: CubicV) -> PointV {
    let p0 = PointV { x: half_v(3 * c.ctrl1.x - c.from.x), y: half_v(3 * c.ctrl1.y - c.from.y) };
    let p1 = PointV { x: half_v(3 * c.ctrl2.x - c.to.x), y: half_v(3 * c.ctrl2.y - c.to.y) };
    mid_pv(p0, p1)
}

/// The quadratic emitted for a (refined) cubic sub-segment: its own
/// endpoints with the fitted control point.
pub open spec fn quad_of_v(c: CubicV) -> QuadV {
    QuadV { from: c.from, ctrl: quad_ctrl_v(c), to: c.to }
}

pub proof fn lemma_quad_of_bounded(c: CubicV, m: int)
    requires
        0 <= m,
        cubic_bounded(c, m),
    ensures
        quad_bounded(quad_of_v(c), 2 * m),
{
    lemma_half_bound(3 * c.ctrl1.x - c.from.x, 4 * m);
    lemma_half_bound(3 * c.ctrl1.y - c.from.y, 4 * m);
    lemma_half_bound(3 * c.ctrl2.x - c.to.x, 4 * m);
    lemma_half_bound(3 * c.ctrl2.y - c.to.y, 4 * m);
    let p0 = PointV { x: half_v(3 * c.ctrl1.x - c.from.x), y: half_v(3 * c.ctrl1.y - c.from.y) };
    let p1 = PointV { x: half_v(3 * c.ctrl2.x - c.to.x), y: half_v(3 * c.ctrl2.y - c.to.y) };
    lemma_mid_pt_bound(p0, p1, 2 * m);
}

/// Halving an `i64` with rounding toward zero.
pub fn half(a: i64) -> (r: i64)
    requires
        -0x2000000000000000 <= a <= 0x2000000000000000,
    ensures
        r == half_v(a as int),
{
    if a >= 0 {
        ((a as u64) / 2) as i64
    } else {
        let m: u64 = (-a) as u64;
        -((m / 2) as i64)
    }
}

/// Midpoint of two `i64` scalars, rounded toward zero.
pub fn mid(a: i64, b: i64) -> (r: i64)
    requires
        -0x1000000000000000 <= a <= 0x1000000000000000,
        -0x1000000000000000 <= b <= 0x1000000000000000,
    ensures
        r == mid_v(a as int, b as int),
{
    half(a + b)
}

/// Midpoint of two points, each coordinate rounded toward zero.
pub fn mid_point(p: &Point, q: &Point) -> (r: Point)
    requires
        pt_bounded(p@, 0x1000000000000000),
        pt_bounded(q@, 0x1000000000000000),
    ensures
        r@ == mid_pv(p@, q@),
{
    Point { x: mid(p.x, q.x), y: mid(p.y, q.y) }
}

/// Splits a cubic at parameter one half by de Casteljau midpoints,
/// yielding the first and second halves in that order.
pub fn split_cubic(c: &CubicSegment) -> (r: (CubicSegment, CubicSegment))
    requires
        cubic_bounded(c@, COORD_LIMIT as int),
    ensures
        r.0@ == split_l_v(c@),
        r.1@ == split_r_v(c@),
        cubic_bounded(r.0@, COORD_LIMIT as int),
        cubic_bounded(r.1@, COORD_LIMIT as int),
{
    proof {
        lemma_split_bounded(c@, COORD_LIMIT as int);
    }
    let p01 = mid_point(&c.from, &c.ctrl1);
    let p12 = mid_point(&c.ctrl1, &c.ctrl2);
    let p23 = mid_point(&c.ctrl2, &c.to);
    let p012 = mid_point(&p01, &p12);
    let p123 = mid_point(&p12, &p23);
    let p0123 = mid_point(&p012, &p123);
    (
        CubicSegment { from: c.from, ctrl1: p01, ctrl2: p012, to: p0123 },
        CubicSegment { from: p0123, ctrl1: p123, ctrl2: p23, to: c.to },
    )
}

pub proof fn lemma_square_bound(a: int, m: int) by (nonlinear_arith)
    requires
        0 <= m,
        -m <= a <= m,
    ensures
        0 <= a * a <= m * m,
{
}

/// Decides whether a sub-segment already satisfies the error bound.
pub fn within_bound(c: &CubicSegment, error_bound: i64) -> (r: bool)
    requires
        cubic_bounded(c@, COORD_LIMIT as int),
        1 <= error_bound <= ERROR_BOUND_LIMIT,
    ensures
        r == seg_within_bound(c@, error_bound as int),
{
    let d0x: i64 = c.from.x - 3 * c.ctrl1.x + 3 * c.ctrl2.x - c.to.x;
    let d0y: i64 = c.from.y - 3 * c.ctrl1.y + 3 * c.ctrl2.y - c.to.y;
    let d1x: i64 = 3 * c.ctrl1.x - c.from.x + c.to.x - 3 * c.ctrl2.x;
    let d1y: i64 = 3 * c.ctrl1.y - c.from.y + c.to.y - 3 * c.ctrl2.y;
    proof {
        lemma_square_bound(d0x as int, 8 * COORD_LIMIT as int);
        lemma_square_bound(d0y as int, 8 * COORD_LIMIT as int);
        lemma_square_bound(d1x as int, 8 * COORD_LIMIT as int);
        lemma_square_bound(d1y as int, 8 * COORD_LIMIT as int);
        lemma_square_bound(error_bound as int, ERROR_BOUND_LIMIT as int);
        assert(0 <= 36 * (error_bound as int) * (error_bound as int) <= 0x4000000000000000)
            by (nonlinear_arith)
            requires
                1 <= error_bound as int <= 67108864,
        ;
    }
    let sq0: i64 = d0x * d0x + d0y * d0y;
    let sq1: i64 = d1x * d1x + d1y * d1y;
    let threshold: i64 = 36 * error_bound * error_bound;
    sq0 < threshold && sq1 < threshold
}

/// Builds the quadratic that stands for a (refined) cubic sub-segment.
pub fn quad_for(c: &CubicSegment) -> (r: QuadraticSegment)
    requires
        cubic_bounded(c@, COORD_LIMIT as int),
    ensures
        r@ == quad_of_v(c@),
        quad_bounded(r@, 2 * COORD_LIMIT as int),
{
    proof {
        lemma_quad_of_bounded(c@, COORD_LIMIT as int);
    }
    let p0 = Point { x: half(3 * c.ctrl1.x - c.from.x), y: half(3 * c.ctrl1.y - c.from.y) };
    let p1 = Point { x: half(3 * c.ctrl2.x - c.to.x), y: half(3 * c.ctrl2.y - c.to.y) };
    let ctrl = mid_point(&p0, &p1);
    QuadraticSegment { from: c.from, ctrl, to: c.to }
}

} // verus!
