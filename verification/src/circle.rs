use vstd::prelude::*;
use crate::geometry::Point;

verus! {

/// Bound on the absolute value of a circle's denominator.
pub const DEN_LIMIT: i128 = 0x4000_0000_0000_0000;

/// Bound on the absolute value of a circle's centre offsets.
pub const OFF_LIMIT: i128 = 0x1000_0000_0000_0000_0000_0000;

/// A circle through `origin` whose centre is the rational point
/// `origin + (off_x / den, off_y / den)`.
///
/// The centre of a circumcircle of grid points is rarely a grid point, so
/// it is kept as an exact fraction. What plays the part of the radius is
/// the squared distance from the centre to `origin`,
/// `(off_x * off_x + off_y * off_y) / (den * den)`; it is never taken the
/// root of, and containment compares squared distances.
#[derive(Clone, Copy, Debug)]
pub struct Circle {
    pub origin: Point,
    pub off_x: i128,
    pub off_y: i128,
    pub den: i128,
}

/// Twice the signed area of `p0`, `p1`, `p2`, doubled: the denominator of
/// their circumcentre.
pub open spec fn circum_den(p0: Point, p1: Point, p2: Point) -> int {
    2 * ((p1.x - p0.x) * (p2.y - p0.y) - (p1.y - p0.y) * (p2.x - p0.x))
}

/// Numerator of the circumcentre's horizontal offset from `p0`.
pub open spec fn circum_off_x(p0: Point, p1: Point, p2: Point) -> int {
    (p2.y - p0.y) * p1.dist_spec(p0) - (p1.y - p0.y) * p2.dist_spec(p0)
}

/// Numerator of the circumcentre's vertical offset from `p0`.
pub open spec fn circum_off_y(p0: Point, p1: Point, p2: Point) -> int {
    (p1.x - p0.x) * p2.dist_spec(p0) - (p2.x - p0.x) * p1.dist_spec(p0)
}

impl Circle {
    /// The fraction is defined and its parts are small enough for the
    /// containment test to be computed in 128 bits.
    pub open spec fn wf(self) -> bool {
        &&& self.origin.in_range()
        &&& self.den != 0
        &&& -DEN_LIMIT <= self.den <= DEN_LIMIT
        &&& -OFF_LIMIT <= self.off_x <= OFF_LIMIT
        &&& -OFF_LIMIT <= self.off_y <= OFF_LIMIT
    }

    /// The squared distance from `p` to the centre, times `den * den`.
    pub open spec fn scaled_dist(self, p: Point) -> int {
        let dx = (p.x - self.origin.x) * self.den - self.off_x;
        let dy = (p.y - self.origin.y) * self.den - self.off_y;
        dx * dx + dy * dy
    }

    /// The squared radius, times `den * den`.
    pub open spec fn scaled_radius(self) -> int {
        self.off_x * self.off_x + self.off_y * self.off_y
    }

    /// `p` lies strictly inside the circle.
    pub open spec fn contains_spec(self, p: Point) -> bool {
        self.scaled_dist(p) < self.scaled_radius()
    }

    /// This is the circle through `p0`, `p1` and `p2`.
    pub open spec fn is_circumcircle(self, p0: Point, p1: Point, p2: Point) -> bool {
        &&& self.origin == p0
        &&& self.den == circum_den(p0, p1, p2)
        &&& self.off_x == circum_off_x(p0, p1, p2)
        &&& self.off_y == circum_off_y(p0, p1, p2)
    }

    /// Whether `point` lies strictly inside the circle.
    pub fn contains(&self, point: &Point) -> (b: bool)
        requires
            self.wf(),
            point.in_range(),
        ensures
            b == self.contains_spec(*point),
    {
        let qx: i128 = point.x as i128 - self.origin.x as i128;
        let qy: i128 = point.y as i128 - self.origin.y as i128;
        let s: i128 = point.dist(&self.origin);
        let den: i128 = self.den;
        let ox: i128 = self.off_x;
        let oy: i128 = self.off_y;
        proof {
            lemma_product_bound(qx as int, ox as int, 0x4000_0000, OFF_LIMIT as int);
            lemma_product_bound(qy as int, oy as int, 0x4000_0000, OFF_LIMIT as int);
            lemma_product_bound(den as int, s as int, DEN_LIMIT as int, 0x2000_0000_0000_0000);
        }
        let dot: i128 = qx * ox + qy * oy;
        let excess: i128 = den * s - 2 * dot;
        proof {
            lemma_excess(qx as int, qy as int, ox as int, oy as int, den as int);
            lemma_sign_of_product(den as int, excess as int);
        }
        if den > 0 {
            excess < 0
        } else {
            excess > 0
        }
    }
}

/// `|a * b| <= la * lb` whenever `|a| <= la` and `|b| <= lb`.
pub proof fn lemma_product_bound(a: int, b: int, la: int, lb: int)
    requires
        -la <= a <= la,
        -lb <= b <= lb,
    ensures
        -(la * lb) <= a * b <= la * lb,
{
    assert(-(la * lb) <= a * b <= la * lb) by (nonlinear_arith)
        requires
            -la <= a <= la,
            -lb <= b <= lb,
    ;
}

/// The difference between scaled distance and scaled radius is `den`
/// times a quantity of lower degree.
pub proof fn lemma_excess(qx: int, qy: int, ox: int, oy: int, den: int)
    ensures
        (qx * den - ox) * (qx * den - ox) + (qy * den - oy) * (qy * den - oy) - (ox * ox + oy * oy)
            == den * (den * (qx * qx + qy * qy) - 2 * (qx * ox + qy * oy)),
{
    assert((qx * den - ox) * (qx * den - ox) == den * (den * (qx * qx)) - 2 * (den * (qx * ox)) + ox
        * ox) by (nonlinear_arith);
    assert((qy * den - oy) * (qy * den - oy) == den * (den * (qy * qy)) - 2 * (den * (qy * oy)) + oy
        * oy) by (nonlinear_arith);
    assert(den * (den * (qx * qx + qy * qy) - 2 * (qx * ox + qy * oy)) == den * (den * (qx * qx))
        + den * (den * (qy * qy)) - 2 * (den * (qx * ox)) - 2 * (den * (qy * oy)))
        by (nonlinear_arith);
}

/// The sign of a product with a nonzero factor.
proof fn lemma_sign_of_product(d: int, e: int)
    requires
        d != 0,
    ensures
        d * e < 0 <==> ((d > 0 && e < 0) || (d < 0 && e > 0)),
{
    assert(d * e < 0 <==> ((d > 0 && e < 0) || (d < 0 && e > 0))) by (nonlinear_arith)
        requires
            d != 0,
    ;
}

/// The centre offset `(by * m - ay * u, ax * u - bx * m)` has dot product
/// `m * det` with `a` and `u * det` with `b`, where `det = ax * by - ay * bx`.
proof fn lemma_dot_offset(ax: int, ay: int, bx: int, by: int, m: int, u: int)
    ensures
        ax * (by * m - ay * u) + ay * (ax * u - bx * m) == m * (ax * by - ay * bx),
        bx * (by * m - ay * u) + by * (ax * u - bx * m) == u * (ax * by - ay * bx),
{
    assert(ax * (by * m - ay * u) == (ax * by) * m - (ax * ay) * u) by (nonlinear_arith);
    assert(ay * (ax * u - bx * m) == (ax * ay) * u - (ay * bx) * m) by (nonlinear_arith);
    assert(m * (ax * by - ay * bx) == (ax * by) * m - (ay * bx) * m) by (nonlinear_arith);
    assert(bx * (by * m - ay * u) == (bx * by) * m - (ay * bx) * u) by (nonlinear_arith);
    assert(by * (ax * u - bx * m) == (ax * by) * u - (bx * by) * m) by (nonlinear_arith);
    assert(u * (ax * by - ay * bx) == (ax * by) * u - (ay * bx) * u) by (nonlinear_arith);
}

/// A circumcircle passes through the three points it was built from: each
/// of them is as far from the centre as the radius is long.
pub proof fn lemma_circumcircle_through_vertices(c: Circle, p0: Point, p1: Point, p2: Point)
    requires
        c.is_circumcircle(p0, p1, p2),
    ensures
        c.scaled_dist(p0) == c.scaled_radius(),
        c.scaled_dist(p1) == c.scaled_radius(),
        c.scaled_dist(p2) == c.scaled_radius(),
        !c.contains_spec(p0),
        !c.contains_spec(p1),
        !c.contains_spec(p2),
{
    let ax = p1.x - p0.x;
    let ay = p1.y - p0.y;
    let bx = p2.x - p0.x;
    let by = p2.y - p0.y;
    let m = ax * ax + ay * ay;
    let u = bx * bx + by * by;
    let det = ax * by - ay * bx;
    let ox = by * m - ay * u;
    let oy = ax * u - bx * m;
    let den = 2 * det;
    assert(p1.dist_spec(p0) == m);
    assert(p2.dist_spec(p0) == u);
    assert(c.off_x == ox && c.off_y == oy && c.den == den);
    lemma_excess(0, 0, ox, oy, den);
    lemma_excess(ax, ay, ox, oy, den);
    lemma_excess(bx, by, ox, oy, den);
    lemma_dot_offset(ax, ay, bx, by, m, u);
    assert(den * m - 2 * (m * det) == 0) by (nonlinear_arith)
        requires
            den == 2 * det,
    ;
    assert(den * u - 2 * (u * det) == 0) by (nonlinear_arith)
        requires
            den == 2 * det,
    ;
    assert(den * (den * m - 2 * (ax * ox + ay * oy)) == 0) by (nonlinear_arith)
        requires
            den * m - 2 * (ax * ox + ay * oy) == 0,
    ;
    assert(den * (den * u - 2 * (bx * ox + by * oy)) == 0) by (nonlinear_arith)
        requires
            den * u - 2 * (bx * ox + by * oy) == 0,
    ;
    assert(den * (den * (0 * 0 + 0 * 0) - 2 * (0 * ox + 0 * oy)) == 0) by (nonlinear_arith);
}

} // verus!
