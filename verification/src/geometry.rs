use vstd::prelude::*;
use vstd::std_specs::cmp::PartialEqSpec;

verus! {

/// Largest absolute value a coordinate may take. With coordinates inside
/// this bound every intermediate value of the circumcircle test fits in
/// 128 bits.
pub const COORD_LIMIT: i64 = 0x2000_0000;

/// Why a triangle could not be built.
#[derive(Clone, Copy, Debug, PartialEq, Eq, Structural)]
pub enum GeometryError {
    /// The three vertices lie on one line (or coincide), so no
    /// circumcircle exists.
    Degenerate,
    /// A coordinate lies beyond `COORD_LIMIT`.
    OutOfRange,
}

/// A point of the integer grid. Two points are equal when both their
/// coordinates are.
#[derive(Clone, Copy, Debug, PartialEq, Eq, Structural)]
pub struct Point {
    pub x: i64,
    pub y: i64,
}

/// Twice the signed area of the triangle `a`, `b`, `c`; zero exactly when
/// the three points are collinear.
pub open spec fn orient(a: Point, b: Point, c: Point) -> int {
    (b.x - a.x) * (c.y - a.y) - (b.y - a.y) * (c.x - a.x)
}

impl Point {
    /// Both coordinates lie within `COORD_LIMIT` of the origin.
    pub open spec fn in_range(self) -> bool {
        &&& -COORD_LIMIT <= self.x <= COORD_LIMIT
        &&& -COORD_LIMIT <= self.y <= COORD_LIMIT
    }

    /// Squared Euclidean distance between two points.
    pub open spec fn dist_spec(self, other: Point) -> int {
        (self.x - other.x) * (self.x - other.x) + (self.y - other.y) * (self.y - other.y)
    }

    /// Whether both coordinates lie within `COORD_LIMIT` of the origin.
    pub fn is_in_range(&self) -> (b: bool)
        ensures
            b == self.in_range(),
    {
        -COORD_LIMIT <= self.x && self.x <= COORD_LIMIT && -COORD_LIMIT <= self.y && self.y
            <= COORD_LIMIT
    }

    /// Squared Euclidean distance to `other`. No root is taken: distances
    /// are compared by their squares.
    pub fn dist(&self, other: &Point) -> (d: i128)
        requires
            self.in_range(),
            other.in_range(),
        ensures
            d == self.dist_spec(*other),
            0 <= d <= 0x2000_0000_0000_0000,
    {
        let dx: i128 = self.x as i128 - other.x as i128;
        let dy: i128 = self.y as i128 - other.y as i128;
        assert(0 <= dx * dx <= 0x1000_0000_0000_0000) by (nonlinear_arith)
            requires
                -0x4000_0000 <= dx <= 0x4000_0000,
        ;
        assert(0 <= dy * dy <= 0x1000_0000_0000_0000) by (nonlinear_arith)
            requires
                -0x4000_0000 <= dy <= 0x4000_0000,
        ;
        dx * dx + dy * dy
    }
}

/// An unordered pair of points: one side of a triangle. Edges are equal
/// when they join the same two points, in either order.
#[derive(Clone, Copy, Debug)]
pub struct Edge {
    pub vertex: [Point; 2],
}

impl View for Edge {
    type V = (Point, Point);

    /// The two end points, in the order in which the edge was built.
    open spec fn view(&self) -> (Point, Point) {
        (self.vertex[0], self.vertex[1])
    }
}

/// Two pairs hold the same two points, in either order.
pub open spec fn same_pair(e: (Point, Point), f: (Point, Point)) -> bool {
    (e.0 == f.0 && e.1 == f.1) || (e.1 == f.0 && e.0 == f.1)
}

impl Edge {
    /// The edge from `a` to `b`.
    pub fn new(a: Point, b: Point) -> (e: Edge)
        ensures
            e@ == (a, b),
    {
        Edge { vertex: [a, b] }
    }
}

impl PartialEq for Edge {
    fn eq(&self, other: &Self) -> (r: bool) {
        (self.vertex[0] == other.vertex[0] && self.vertex[1] == other.vertex[1]) || (self.vertex[1]
            == other.vertex[0] && self.vertex[0] == other.vertex[1])
    }
}

impl vstd::std_specs::cmp::PartialEqSpecImpl for Edge {
    open spec fn obeys_eq_spec() -> bool {
        true
    }

    open spec fn eq_spec(&self, other: &Self) -> bool {
        same_pair(self@, other@)
    }
}

impl Eq for Edge {

}

/// Edge equality does not depend on the order of the two end points, nor
/// on which edge stands on which side of `==`.
pub proof fn lemma_edge_eq_symmetric(a: Point, b: Point, e: Edge, f: Edge)
    requires
        e@ == (a, b),
        f@ == (b, a),
    ensures
        e.eq_spec(&f),
        f.eq_spec(&e),
        e.eq_spec(&e),
{
}

/// `==` on edges is symmetric.
pub proof fn lemma_edge_eq_commutes(e: Edge, f: Edge)
    ensures
        e.eq_spec(&f) == f.eq_spec(&e),
{
}

} // verus!
