use vstd::prelude::*;
use vstd::std_specs::cmp::PartialEqSpec;
use crate::circle::{circum_den, circum_off_x, circum_off_y, lemma_product_bound, Circle};
use crate::geometry::{orient, Edge, GeometryError, Point, COORD_LIMIT};

verus! {

/// Three vertices make a triangle the library accepts: all within the
/// coordinate bound and not on one line.
pub open spec fn valid_triangle(t: (Point, Point, Point)) -> bool {
    &&& t.0.in_range()
    &&& t.1.in_range()
    &&& t.2.in_range()
    &&& orient(t.0, t.1, t.2) != 0
}

/// `p` lies strictly inside the circle through the three vertices of `t`:
/// its squared distance to the circumcentre is less than that of a vertex.
/// Both sides are multiplied by the square of the circumcentre's
/// denominator, so that the comparison is one of integers.
pub open spec fn in_circumcircle(t: (Point, Point, Point), p: Point) -> bool {
    let den = circum_den(t.0, t.1, t.2);
    let off_x = circum_off_x(t.0, t.1, t.2);
    let off_y = circum_off_y(t.0, t.1, t.2);
    let dx = (p.x - t.0.x) * den - off_x;
    let dy = (p.y - t.0.y) * den - off_y;
    dx * dx + dy * dy < off_x * off_x + off_y * off_y
}

/// The `k`-th side of `t`: from each vertex to the next, the last back to
/// the first.
pub open spec fn side(t: (Point, Point, Point), k: int) -> (Point, Point) {
    if k == 0 {
        (t.0, t.1)
    } else if k == 1 {
        (t.1, t.2)
    } else {
        (t.2, t.0)
    }
}

/// `p` is one of the three vertices of `t`.
pub open spec fn has_vertex(t: (Point, Point, Point), p: Point) -> bool {
    t.0 == p || t.1 == p || t.2 == p
}

/// Each triangle's vertices are vertices of the other.
pub open spec fn same_vertices(s: (Point, Point, Point), t: (Point, Point, Point)) -> bool {
    &&& has_vertex(s, t.0)
    &&& has_vertex(s, t.1)
    &&& has_vertex(s, t.2)
    &&& has_vertex(t, s.0)
    &&& has_vertex(t, s.1)
    &&& has_vertex(t, s.2)
}

/// `t` lists the vertices of `s` in one of the six possible orders.
pub open spec fn is_permutation(s: (Point, Point, Point), t: (Point, Point, Point)) -> bool {
    ||| t == (s.0, s.1, s.2)
    ||| t == (s.0, s.2, s.1)
    ||| t == (s.1, s.0, s.2)
    ||| t == (s.1, s.2, s.0)
    ||| t == (s.2, s.0, s.1)
    ||| t == (s.2, s.1, s.0)
}

/// A triangle of the mesh: three vertices that are not collinear, its three
/// sides, and the circle through its vertices, computed once when the
/// triangle is built.
#[derive(Clone, Copy, Debug)]
pub struct Triangle {
    vertex: [Point; 3],
    circumcircle: Circle,
    edges: [Edge; 3],
}

impl View for Triangle {
    type V = (Point, Point, Point);

    /// The three vertices, in the order in which the triangle was built.
    closed spec fn view(&self) -> (Point, Point, Point) {
        (self.vertex[0], self.vertex[1], self.vertex[2])
    }
}

impl Triangle {
    #[verifier::type_invariant]
    closed spec fn inv(self) -> bool {
        &&& valid_triangle(self@)
        &&& self.circumcircle.wf()
        &&& self.circumcircle.is_circumcircle(self.vertex[0], self.vertex[1], self.vertex[2])
        &&& self.edges[0]@ == side(self@, 0)
        &&& self.edges[1]@ == side(self@, 1)
        &&& self.edges[2]@ == side(self@, 2)
    }

    /// Builds the triangle `p0`, `p1`, `p2` with its sides and circumcircle.
    ///
    /// Fails with `OutOfRange` when a coordinate lies beyond the bound, and
    /// with `Degenerate` when the vertices are collinear or coincide, for
    /// then no circle passes through them.
    pub fn new(p0: Point, p1: Point, p2: Point) -> (r: Result<Triangle, GeometryError>)
        ensures
            match r {
                Ok(t) => t@ == (p0, p1, p2) && valid_triangle((p0, p1, p2)),
                Err(GeometryError::OutOfRange) => !(p0.in_range() && p1.in_range()
                    && p2.in_range()),
                Err(GeometryError::Degenerate) => p0.in_range() && p1.in_range() && p2.in_range()
                    && orient(p0, p1, p2) == 0,
            },
    {
        if !(p0.is_in_range() && p1.is_in_range() && p2.is_in_range()) {
            return Err(GeometryError::OutOfRange);
        }
        let ax: i128 = p1.x as i128 - p0.x as i128;
        let ay: i128 = p1.y as i128 - p0.y as i128;
        let bx: i128 = p2.x as i128 - p0.x as i128;
        let by: i128 = p2.y as i128 - p0.y as i128;
        proof {
            lemma_product_bound(ax as int, by as int, 0x4000_0000, 0x4000_0000);
            lemma_product_bound(ay as int, bx as int, 0x4000_0000, 0x4000_0000);
        }
        let det: i128 = ax * by - ay * bx;
        if det == 0 {
            return Err(GeometryError::Degenerate);
        }
        let m: i128 = p1.dist(&p0);
        let u: i128 = p2.dist(&p0);
        proof {
            lemma_product_bound(by as int, m as int, 0x4000_0000, 0x2000_0000_0000_0000);
            lemma_product_bound(ay as int, u as int, 0x4000_0000, 0x2000_0000_0000_0000);
            lemma_product_bound(ax as int, u as int, 0x4000_0000, 0x2000_0000_0000_0000);
            lemma_product_bound(bx as int, m as int, 0x4000_0000, 0x2000_0000_0000_0000);
        }
        let circumcircle = Circle {
            origin: p0,
            off_x: by * m - ay * u,
            off_y: ax * u - bx * m,
            den: 2 * det,
        };
        let vertex: [Point; 3] = [p0, p1, p2];
        let edges: [Edge; 3] = [Edge::new(p0, p1), Edge::new(p1, p2), Edge::new(p2, p0)];
        Ok(Triangle { vertex, circumcircle, edges })
    }

    /// The circle through the three vertices.
    pub fn circumcircle(&self) -> (c: Circle)
        ensures
            c.wf(),
            c.is_circumcircle(self@.0, self@.1, self@.2),
            forall|p: Point| c.contains_spec(p) == in_circumcircle(self@, p),
    {
        proof {
            use_type_invariant(self);
        }
        self.circumcircle
    }

    /// The three sides: first to second vertex, second to third, third
    /// back to first.
    pub fn edges(&self) -> (e: [Edge; 3])
        ensures
            e[0]@ == side(self@, 0),
            e[1]@ == side(self@, 1),
            e[2]@ == side(self@, 2),
    {
        proof {
            use_type_invariant(self);
        }
        self.edges
    }

    /// The centroid, rounded down to the grid in each coordinate.
    pub fn center(&self) -> (c: Point)
        ensures
            c.x == (self@.0.x + self@.1.x + self@.2.x) / 3,
            c.y == (self@.0.y + self@.1.y + self@.2.y) / 3,
            c.in_range(),
    {
        proof {
            use_type_invariant(self);
        }
        let shift: i64 = 3 * COORD_LIMIT;
        let sx: i64 = self.vertex[0].x + self.vertex[1].x + self.vertex[2].x + shift;
        let sy: i64 = self.vertex[0].y + self.vertex[1].y + self.vertex[2].y + shift;
        Point { x: sx / 3 - COORD_LIMIT, y: sy / 3 - COORD_LIMIT }
    }

    /// The three vertices, in the order in which the triangle was built.
    pub fn vertex(&self) -> (v: [Point; 3])
        ensures
            v@ == seq![self@.0, self@.1, self@.2],
            valid_triangle(self@),
    {
        proof {
            use_type_invariant(self);
        }
        assert(self.vertex@ =~= seq![self@.0, self@.1, self@.2]);
        self.vertex
    }
}

/// Triangles are equal when they have the same three vertices, in any
/// order.
impl PartialEq for Triangle {
    fn eq(&self, other: &Self) -> (r: bool) {
        let s = &self.vertex;
        let t = &other.vertex;
        (s[0] == t[0] || s[1] == t[0] || s[2] == t[0]) && (s[0] == t[1] || s[1] == t[1] || s[2]
            == t[1]) && (s[0] == t[2] || s[1] == t[2] || s[2] == t[2]) && (t[0] == s[0] || t[1]
            == s[0] || t[2] == s[0]) && (t[0] == s[1] || t[1] == s[1] || t[2] == s[1]) && (t[0]
            == s[2] || t[1] == s[2] || t[2] == s[2])
    }
}

impl vstd::std_specs::cmp::PartialEqSpecImpl for Triangle {
    open spec fn obeys_eq_spec() -> bool {
        true
    }

    open spec fn eq_spec(&self, other: &Self) -> bool {
        same_vertices(self@, other@)
    }
}

/// Collinear points cannot be told apart by `orient`: a triangle with a
/// repeated vertex has no area.
pub proof fn lemma_valid_vertices_distinct(t: (Point, Point, Point))
    requires
        orient(t.0, t.1, t.2) != 0,
    ensures
        t.0 != t.1,
        t.1 != t.2,
        t.0 != t.2,
{
    let ax = t.1.x - t.0.x;
    let ay = t.1.y - t.0.y;
    let bx = t.2.x - t.0.x;
    let by = t.2.y - t.0.y;
    if t.1 == t.2 {
        assert(ax * ay - ay * ax == 0) by (nonlinear_arith);
    }
    if t.0 == t.1 {
        assert(ax * by - ay * bx == 0) by (nonlinear_arith)
            requires
                ax == 0,
                ay == 0,
        ;
    }
    if t.0 == t.2 {
        assert(ax * by - ay * bx == 0) by (nonlinear_arith)
            requires
                bx == 0,
                by == 0,
        ;
    }
}

/// Triangle equality does not depend on the order of the vertices: a
/// triangle equals each of the six reorderings of itself.
pub proof fn lemma_triangle_eq_permutation(s: Triangle, t: Triangle)
    requires
        is_permutation(s@, t@),
    ensures
        s.eq_spec(&t),
        t.eq_spec(&s),
{
}

/// Among triangles with area, equality is exactly being a reordering.
pub proof fn lemma_triangle_eq_is_permutation(s: Triangle, t: Triangle)
    requires
        orient(s@.0, s@.1, s@.2) != 0,
        orient(t@.0, t@.1, t@.2) != 0,
    ensures
        s.eq_spec(&t) <==> is_permutation(s@, t@),
{
    lemma_valid_vertices_distinct(s@);
    lemma_valid_vertices_distinct(t@);
}

} // verus!
