use vstd::prelude::*;
use vstd::arithmetic::mul::{lemma_mul_is_associative, lemma_mul_is_commutative};
use crate::delaunay::{
    accepts, after_points, boundary, cavity, doomed_edges, fan, first_match, initial_mesh, inserted,
    kept, lemma_boundary_from_edges, lemma_doomed_edge_is_side, lemma_first_match_is,
    lemma_initial_mesh_tiles, step, valid_domain,
};
use crate::circle::lemma_excess;
use crate::geometry::{orient, same_pair, Point};
use crate::triangle::{in_circumcircle, side, valid_triangle};

verus! {

/// `p` lies in the rectangle between the origin and `(width, height)`,
/// its border included.
pub open spec fn in_rect(p: Point, height: i64, width: i64) -> bool {
    0 <= p.x <= width && 0 <= p.y <= height
}

/// All three vertices of `t` lie in the rectangle.
pub open spec fn tri_in_rect(t: (Point, Point, Point), height: i64, width: i64) -> bool {
    in_rect(t.0, height, width) && in_rect(t.1, height, width) && in_rect(t.2, height, width)
}

/// Every triangle of `tris` lies in the rectangle.
pub open spec fn all_in_rect(tris: Seq<(Point, Point, Point)>, height: i64, width: i64) -> bool {
    forall|k: int| 0 <= k < tris.len() ==> tri_in_rect(#[trigger] tris[k], height, width)
}

/// `t` joins a side of a triangle of `tris` whose circumcircle contains
/// `p` to `p`.
pub open spec fn is_fan_triangle(
    tris: Seq<(Point, Point, Point)>,
    p: Point,
    t: (Point, Point, Point),
) -> bool {
    exists|i: int, s: int|
        0 <= i < tris.len() && 0 <= s < 3 && in_circumcircle(tris[i], p) && t == (
            (#[trigger] side(tris[i], s)).0,
            side(tris[i], s).1,
            p,
        )
}

/// Every kept triangle is a triangle of the mesh whose circumcircle does
/// not contain the point.
pub proof fn lemma_kept_from(tris: Seq<(Point, Point, Point)>, p: Point, k: int)
    requires
        0 <= k < kept(tris, p).len(),
    ensures
        tris.contains(kept(tris, p)[k]),
        !in_circumcircle(kept(tris, p)[k], p),
    decreases tris.len(),
{
    let rest = kept(tris.drop_last(), p);
    if k < rest.len() {
        lemma_kept_from(tris.drop_last(), p, k);
        let i = choose|i: int| 0 <= i < tris.drop_last().len() && tris.drop_last()[i] == rest[k];
        assert(tris[i] == kept(tris, p)[k]);
    } else {
        assert(tris[tris.len() - 1] == kept(tris, p)[k]);
    }
}

/// Every edge of the polygon that an insertion opens up is a side of a
/// triangle that gives way.
pub proof fn lemma_cavity_edge_is_side(tris: Seq<(Point, Point, Point)>, p: Point, k: int)
    requires
        0 <= k < cavity(tris, p).len(),
    ensures
        exists|i: int, s: int|
            0 <= i < tris.len() && 0 <= s < 3 && in_circumcircle(tris[i], p) && cavity(tris, p)[k]
                == #[trigger] side(tris[i], s),
{
    let edges = doomed_edges(tris, p);
    lemma_boundary_from_edges(edges, k);
    let j = choose|j: int| 0 <= j < edges.len() && edges[j] == boundary(edges)[k];
    lemma_doomed_edge_is_side(tris, p, j);
}

/// After an insertion the mesh holds, first, the triangles whose
/// circumcircle does not contain the point, as they were, and then
/// triangles from a side of a triangle that gave way to the point.
pub proof fn lemma_inserted_triangle(tris: Seq<(Point, Point, Point)>, p: Point, k: int)
    requires
        0 <= k < inserted(tris, p).len(),
    ensures
        inserted(tris, p).len() == kept(tris, p).len() + cavity(tris, p).len(),
        k < kept(tris, p).len() ==> tris.contains(inserted(tris, p)[k]) && !in_circumcircle(
            inserted(tris, p)[k],
            p,
        ),
        k >= kept(tris, p).len() ==> is_fan_triangle(tris, p, inserted(tris, p)[k]),
{
    let n = kept(tris, p).len() as int;
    if k < n {
        lemma_kept_from(tris, p, k);
    } else {
        lemma_cavity_edge_is_side(tris, p, k - n);
        let (i, s) = choose|i: int, s: int|
            0 <= i < tris.len() && 0 <= s < 3 && in_circumcircle(tris[i], p) && cavity(tris, p)[k
                - n] == #[trigger] side(tris[i], s);
        assert(inserted(tris, p)[k] == (side(tris[i], s).0, side(tris[i], s).1, p));
    }
}

/// Offering a point of the rectangle to a mesh within the rectangle
/// leaves the mesh within the rectangle.
pub proof fn lemma_step_in_rect(
    tris: Seq<(Point, Point, Point)>,
    p: Point,
    height: i64,
    width: i64,
)
    requires
        all_in_rect(tris, height, width),
        in_rect(p, height, width),
    ensures
        all_in_rect(step(tris, p), height, width),
{
    if accepts(tris, p) {
        let next = inserted(tris, p);
        assert forall|k: int| 0 <= k < next.len() implies tri_in_rect(
            #[trigger] next[k],
            height,
            width,
        ) by {
            lemma_inserted_triangle(tris, p, k);
            if k < kept(tris, p).len() {
                let i = choose|i: int| 0 <= i < tris.len() && tris[i] == next[k];
                assert(tri_in_rect(tris[i], height, width));
            } else {
                let (i, s) = choose|i: int, s: int|
                    0 <= i < tris.len() && 0 <= s < 3 && in_circumcircle(tris[i], p) && next[k] == (
                        (#[trigger] side(tris[i], s)).0,
                        side(tris[i], s).1,
                        p,
                    );
                assert(tri_in_rect(tris[i], height, width));
            }
        }
    }
}

/// A mesh never leaves its rectangle: after any points of the rectangle
/// were offered to the initial mesh, every vertex of every triangle lies
/// in the rectangle.
pub proof fn lemma_mesh_in_rect(height: i64, width: i64, points: Seq<Point>)
    requires
        0 < height,
        0 < width,
        forall|i: int| 0 <= i < points.len() ==> in_rect(#[trigger] points[i], height, width),
    ensures
        all_in_rect(after_points(initial_mesh(height, width), points), height, width),
    decreases points.len(),
{
    if points.len() > 0 {
        lemma_mesh_in_rect(height, width, points.drop_last());
        lemma_step_in_rect(
            after_points(initial_mesh(height, width), points.drop_last()),
            points.last(),
            height,
            width,
        );
    }
}

/// Every triangle of `tris` has its vertices within the coordinate bound
/// and has area.
pub open spec fn all_valid(tris: Seq<(Point, Point, Point)>) -> bool {
    forall|k: int| 0 <= k < tris.len() ==> valid_triangle(#[trigger] tris[k])
}

/// Offering a point to a mesh of triangles with area leaves a mesh of
/// triangles with area: a point that would bring in a flat triangle is
/// not accepted.
pub proof fn lemma_step_valid(tris: Seq<(Point, Point, Point)>, p: Point)
    requires
        all_valid(tris),
    ensures
        all_valid(step(tris, p)),
{
    if accepts(tris, p) {
        let next = inserted(tris, p);
        let n = kept(tris, p).len() as int;
        assert forall|k: int| 0 <= k < next.len() implies valid_triangle(#[trigger] next[k]) by {
            lemma_inserted_triangle(tris, p, k);
            if k < n {
                let i = choose|i: int| 0 <= i < tris.len() && tris[i] == next[k];
                assert(valid_triangle(tris[i]));
            } else {
                let (i, s) = choose|i: int, s: int|
                    0 <= i < tris.len() && 0 <= s < 3 && in_circumcircle(tris[i], p) && next[k] == (
                        (#[trigger] side(tris[i], s)).0,
                        side(tris[i], s).1,
                        p,
                    );
                assert(valid_triangle(tris[i]));
                let e = cavity(tris, p)[k - n];
                assert(next[k] == (e.0, e.1, p));
                assert(orient(e.0, e.1, p) != 0);
            }
        }
    }
}

/// A mesh holds no flat triangle, whatever points were offered to it.
pub proof fn lemma_mesh_valid(height: i64, width: i64, points: Seq<Point>)
    requires
        valid_domain(height, width),
    ensures
        all_valid(after_points(initial_mesh(height, width), points)),
    decreases points.len(),
{
    if points.len() == 0 {
        lemma_initial_mesh_tiles(height, width);
    } else {
        lemma_mesh_valid(height, width, points.drop_last());
        lemma_step_valid(
            after_points(initial_mesh(height, width), points.drop_last()),
            points.last(),
        );
    }
}

/// Twice the signed area of the triangles, summed.
pub open spec fn area_sum(tris: Seq<(Point, Point, Point)>) -> int
    decreases tris.len(),
{
    if tris.len() == 0 {
        0
    } else {
        area_sum(tris.drop_last()) + orient(tris.last().0, tris.last().1, tris.last().2)
    }
}

/// Twice the signed area of the triangles from each edge to `p`, summed.
pub open spec fn fan_area(edges: Seq<(Point, Point)>, p: Point) -> int
    decreases edges.len(),
{
    if edges.len() == 0 {
        0
    } else {
        fan_area(edges.drop_last(), p) + orient(edges.last().0, edges.last().1, p)
    }
}

/// No edge occurs twice with its end points in the same order.
pub open spec fn no_edge_twice(edges: Seq<(Point, Point)>) -> bool {
    forall|i: int, j: int| 0 <= i < j < edges.len() ==> edges[i] != edges[j]
}

/// The cross product of two points taken as vectors from the origin.
pub open spec fn cross(u: Point, v: Point) -> int {
    u.x * v.y - u.y * v.x
}

/// Twice the area of a triangle is the sum of the cross products of its
/// vertices, each with the next.
pub proof fn lemma_orient_cross(a: Point, b: Point, c: Point)
    ensures
        orient(a, b, c) == cross(a, b) + cross(b, c) + cross(c, a),
        cross(a, b) + cross(b, a) == 0,
{
    let (ax, ay) = (a.x as int, a.y as int);
    let (bx, by) = (b.x as int, b.y as int);
    let (cx, cy) = (c.x as int, c.y as int);
    assert((bx - ax) * (cy - ay) == bx * cy - bx * ay - ax * cy + ax * ay) by (nonlinear_arith);
    assert((by - ay) * (cx - ax) == by * cx - by * ax - ay * cx + ay * ax) by (nonlinear_arith);
    assert(ax * ay == ay * ax) by (nonlinear_arith);
    assert(by * ax == ax * by) by (nonlinear_arith);
    assert(bx * ay == ay * bx) by (nonlinear_arith);
    assert(ax * cy == cy * ax) by (nonlinear_arith);
    assert(ay * cx == cx * ay) by (nonlinear_arith);
}

/// Seen from any point, the three sides of a triangle span its area.
pub proof fn lemma_triangle_split(t: (Point, Point, Point), p: Point)
    ensures
        orient(t.0, t.1, p) + orient(t.1, t.2, p) + orient(t.2, t.0, p) == orient(t.0, t.1, t.2),
{
    lemma_orient_cross(t.0, t.1, p);
    lemma_orient_cross(t.1, t.2, p);
    lemma_orient_cross(t.2, t.0, p);
    lemma_orient_cross(t.0, t.1, t.2);
    lemma_orient_cross(p, t.0, t.1);
    lemma_orient_cross(p, t.1, t.2);
    lemma_orient_cross(p, t.2, t.0);
}

/// An edge and its reverse span areas that cancel.
pub proof fn lemma_reverse_edge(a: Point, b: Point, p: Point)
    ensures
        orient(a, b, p) + orient(b, a, p) == 0,
{
    lemma_orient_cross(a, b, p);
    lemma_orient_cross(b, a, p);
    lemma_orient_cross(p, a, b);
    lemma_orient_cross(p, b, a);
}

/// The area of a mesh is that of the triangles that stay and that which
/// the sides of the others span with the point.
pub proof fn lemma_area_split(tris: Seq<(Point, Point, Point)>, p: Point)
    ensures
        area_sum(tris) == area_sum(kept(tris, p)) + fan_area(doomed_edges(tris, p), p),
    decreases tris.len(),
{
    if tris.len() > 0 {
        let t = tris.last();
        lemma_area_split(tris.drop_last(), p);
        if in_circumcircle(t, p) {
            let rest = doomed_edges(tris.drop_last(), p);
            let one = rest.push(side(t, 0));
            let two = one.push(side(t, 1));
            let three = two.push(side(t, 2));
            assert(one.drop_last() =~= rest);
            assert(two.drop_last() =~= one);
            assert(three.drop_last() =~= two);
            assert(fan_area(one, p) == fan_area(rest, p) + orient(t.0, t.1, p));
            assert(fan_area(two, p) == fan_area(one, p) + orient(t.1, t.2, p));
            assert(fan_area(three, p) == fan_area(two, p) + orient(t.2, t.0, p));
            lemma_triangle_split(t, p);
        } else {
            assert(kept(tris, p).drop_last() =~= kept(tris.drop_last(), p));
            assert(kept(tris, p).last() == t);
        }
    }
}

/// Taking an edge out of a list takes out the area it spans.
pub proof fn lemma_fan_area_remove(edges: Seq<(Point, Point)>, j: int, p: Point)
    requires
        0 <= j < edges.len(),
    ensures
        fan_area(edges.remove(j), p) == fan_area(edges, p) - orient(edges[j].0, edges[j].1, p),
    decreases edges.len(),
{
    if j == edges.len() - 1 {
        assert(edges.remove(j) =~= edges.drop_last());
    } else {
        lemma_fan_area_remove(edges.drop_last(), j, p);
        assert(edges.remove(j).drop_last() =~= edges.drop_last().remove(j));
        assert(edges.remove(j).last() == edges.last());
    }
}

/// Where no edge occurs twice in the same direction, the edges that
/// cancel are each other's reverse, and the boundary polygon spans the
/// same area as all the edges.
pub proof fn lemma_boundary_area(edges: Seq<(Point, Point)>, p: Point)
    requires
        no_edge_twice(edges),
    ensures
        fan_area(boundary(edges), p) == fan_area(edges, p),
    decreases edges.len(),
{
    if edges.len() > 0 {
        let front = edges.drop_last();
        let rest = boundary(front);
        let e = edges.last();
        assert(no_edge_twice(front)) by {
            assert forall|i: int, j: int| 0 <= i < j < front.len() implies front[i] != front[j] by {
                assert(edges[i] != edges[j]);
            }
        }
        lemma_boundary_area(front, p);
        let j = first_match(rest, e);
        lemma_first_match_is(rest, e);
        if j < rest.len() {
            lemma_boundary_from_edges(front, j);
            let i = choose|i: int| 0 <= i < front.len() && front[i] == rest[j];
            assert(edges[i] != edges[edges.len() - 1]);
            assert(rest[j] == (e.1, e.0));
            lemma_fan_area_remove(rest, j, p);
            lemma_reverse_edge(e.0, e.1, p);
        } else {
            assert(rest.push(e).drop_last() =~= rest);
        }
    }
}

/// The fan over a polygon has the area that the polygon spans with the
/// point.
pub proof fn lemma_fan_area(poly: Seq<(Point, Point)>, p: Point)
    ensures
        area_sum(fan(poly, p)) == fan_area(poly, p),
    decreases poly.len(),
{
    if poly.len() > 0 {
        lemma_fan_area(poly.drop_last(), p);
        assert(fan(poly, p).drop_last() =~= fan(poly.drop_last(), p));
    }
}

/// The area of two lists of triangles, one after the other.
pub proof fn lemma_area_concat(a: Seq<(Point, Point, Point)>, b: Seq<(Point, Point, Point)>)
    ensures
        area_sum(a + b) == area_sum(a) + area_sum(b),
    decreases b.len(),
{
    if b.len() == 0 {
        assert(a + b =~= a);
    } else {
        lemma_area_concat(a, b.drop_last());
        assert((a + b).drop_last() =~= a + b.drop_last());
        assert((a + b).last() == b.last());
    }
}

/// An insertion keeps the signed area of the mesh, provided that no two
/// of the triangles that give way run along a side in the same direction:
/// the fan fills the hole that they leave, no more and no less.
pub proof fn lemma_insertion_keeps_area(tris: Seq<(Point, Point, Point)>, p: Point)
    requires
        no_edge_twice(doomed_edges(tris, p)),
    ensures
        area_sum(inserted(tris, p)) == area_sum(tris),
{
    lemma_area_split(tris, p);
    lemma_boundary_area(doomed_edges(tris, p), p);
    lemma_fan_area(cavity(tris, p), p);
    lemma_area_concat(kept(tris, p), fan(cavity(tris, p), p));
}

/// An initial mesh has the area of its rectangle.
pub proof fn lemma_initial_area(height: i64, width: i64)
    requires
        height != 0,
        width != 0,
    ensures
        area_sum(initial_mesh(height, width)) == 2 * (width * height),
{
    lemma_initial_mesh_tiles(height, width);
    let t = initial_mesh(height, width);
    assert(t.drop_last() =~= seq![t[0]]);
    assert(t.drop_last().drop_last() =~= Seq::empty());
    assert(area_sum(t.drop_last()) == area_sum(t.drop_last().drop_last()) + orient(
        t[0].0,
        t[0].1,
        t[0].2,
    ));
}

/// The first point that an initial mesh accepts leaves the mesh with the
/// area of its rectangle: the two triangles share their diagonal in
/// opposite directions, so that it cancels when both give way.
pub proof fn lemma_first_insertion_area(height: i64, width: i64, p: Point)
    requires
        height != 0,
        width != 0,
    ensures
        area_sum(step(initial_mesh(height, width), p)) == 2 * (width * height),
{
    let tris = initial_mesh(height, width);
    lemma_initial_area(height, width);
    let one = tris.drop_last();
    let none = one.drop_last();
    assert(one =~= seq![tris[0]]);
    assert(none =~= Seq::empty());
    assert(doomed_edges(none, p) =~= Seq::empty());
    let first = doomed_edges(one, p);
    let all = doomed_edges(tris, p);
    assert(first.len() == 0 || first =~= seq![side(tris[0], 0), side(tris[0], 1), side(tris[0], 2)]);
    assert(all =~= first || all =~= first.push(side(tris[1], 0)).push(side(tris[1], 1)).push(
        side(tris[1], 2),
    ));
    assert(no_edge_twice(all));
    lemma_insertion_keeps_area(tris, p);
}

/// How often the edge `e` occurs in the list, in either direction.
pub open spec fn occurrences(edges: Seq<(Point, Point)>, e: (Point, Point)) -> nat
    decreases edges.len(),
{
    if edges.len() == 0 {
        0
    } else if same_pair(edges.last(), e) {
        occurrences(edges.drop_last(), e) + 1
    } else {
        occurrences(edges.drop_last(), e)
    }
}

/// An edge that does not occur in a list has no match in it, and an edge
/// that has no match does not occur.
pub proof fn lemma_occurrences_none(edges: Seq<(Point, Point)>, e: (Point, Point))
    ensures
        occurrences(edges, e) == 0 <==> forall|k: int|
            0 <= k < edges.len() ==> !same_pair(#[trigger] edges[k], e),
    decreases edges.len(),
{
    if edges.len() > 0 {
        let front = edges.drop_last();
        lemma_occurrences_none(front, e);
        if occurrences(edges, e) == 0 {
            assert forall|k: int| 0 <= k < edges.len() implies !same_pair(
                #[trigger] edges[k],
                e,
            ) by {
                if k < front.len() {
                    assert(front[k] == edges[k]);
                }
            }
        } else if !same_pair(edges.last(), e) {
            let k = choose|k: int| 0 <= k < front.len() && same_pair(#[trigger] front[k], e);
            assert(same_pair(edges[k], e));
        }
    }
}

/// Taking an entry out of a list takes one occurrence from the edge that
/// stood there and none from any other.
pub proof fn lemma_occurrences_remove(edges: Seq<(Point, Point)>, j: int, e: (Point, Point))
    requires
        0 <= j < edges.len(),
    ensures
        occurrences(edges, e) == occurrences(edges.remove(j), e) + if same_pair(edges[j], e) {
            1nat
        } else {
            0nat
        },
    decreases edges.len(),
{
    if j == edges.len() - 1 {
        assert(edges.remove(j) =~= edges.drop_last());
    } else {
        lemma_occurrences_remove(edges.drop_last(), j, e);
        assert(edges.remove(j).drop_last() =~= edges.drop_last().remove(j));
        assert(edges.remove(j).last() == edges.last());
    }
}

/// The boundary polygon is the symmetric difference of the edges it was
/// reduced from: an edge that occurred an odd number of times stands in
/// it once, and an edge that occurred an even number of times does not
/// stand in it. So a side that two triangles share cancels, and a side of
/// one triangle alone stays.
pub proof fn lemma_boundary_parity(edges: Seq<(Point, Point)>, e: (Point, Point))
    ensures
        occurrences(boundary(edges), e) == occurrences(edges, e) % 2,
    decreases edges.len(),
{
    if edges.len() > 0 {
        let front = edges.drop_last();
        let rest = boundary(front);
        let x = edges.last();
        lemma_boundary_parity(front, e);
        let j = first_match(rest, x);
        lemma_first_match_is(rest, x);
        if j < rest.len() {
            lemma_occurrences_remove(rest, j, e);
            if same_pair(x, e) {
                assert(same_pair(rest[j], e));
            } else {
                assert(!same_pair(rest[j], e));
            }
        } else {
            assert(rest.push(x).drop_last() =~= rest);
            if same_pair(x, e) {
                assert forall|k: int| 0 <= k < rest.len() implies !same_pair(
                    #[trigger] rest[k],
                    e,
                ) by {
                    assert(!same_pair(x, rest[k]));
                }
                lemma_occurrences_none(rest, e);
            }
        }
    }
}

/// Every triangle of the mesh whose circumcircle does not contain the
/// point is kept.
pub proof fn lemma_kept_complete(tris: Seq<(Point, Point, Point)>, p: Point, i: int)
    requires
        0 <= i < tris.len(),
        !in_circumcircle(tris[i], p),
    ensures
        kept(tris, p).contains(tris[i]),
    decreases tris.len(),
{
    let rest = kept(tris.drop_last(), p);
    if i == tris.len() - 1 {
        assert(kept(tris, p)[rest.len() as int] == tris[i]);
    } else {
        lemma_kept_complete(tris.drop_last(), p, i);
        let k = choose|k: int| 0 <= k < rest.len() && rest[k] == tris.drop_last()[i];
        assert(kept(tris, p)[k] == tris[i]);
    }
}

/// `p` lies within the triangle `t` and not on one of its sides: seen
/// from each side in turn, `p` lies on the side's inner face.
pub open spec fn strictly_inside(t: (Point, Point, Point), p: Point) -> bool {
    let d = orient(t.0, t.1, t.2);
    ||| d > 0 && orient(t.0, t.1, p) > 0 && orient(t.1, t.2, p) > 0 && orient(t.2, t.0, p) > 0
    ||| d < 0 && orient(t.0, t.1, p) < 0 && orient(t.1, t.2, p) < 0 && orient(t.2, t.0, p) < 0
}

/// With `u`, `v`, `w` all positive or all negative and the other numbers
/// not negative, one of them positive, this sum of products is positive.
proof fn lemma_weights_sign(u: int, v: int, w: int, big_b: int, big_c: int, gap: int)
    requires
        (u > 0 && v > 0 && w > 0) || (u < 0 && v < 0 && w < 0),
        big_b > 0,
        big_c >= 0,
        gap >= 0,
    ensures
        v * w * gap + u * (big_b * v + big_c * w) > 0,
{
    assert(v * w > 0 && u * v > 0 && u * w > 0) by (nonlinear_arith)
        requires
            (u > 0 && v > 0 && w > 0) || (u < 0 && v < 0 && w < 0),
    ;
    assert(v * w * gap >= 0) by (nonlinear_arith)
        requires
            v * w > 0,
            gap >= 0,
    ;
    assert(big_b * (u * v) > 0) by (nonlinear_arith)
        requires
            u * v > 0,
            big_b > 0,
    ;
    assert(big_c * (u * w) >= 0) by (nonlinear_arith)
        requires
            u * w > 0,
            big_c >= 0,
    ;
    assert(u * (big_b * v + big_c * w) == big_b * (u * v) + big_c * (u * w)) by (nonlinear_arith);
}

/// A product of three numbers, regrouped.
proof fn lemma_regroup3(a: int, b: int, c: int)
    ensures
        a * (b * c) == (a * b) * c,
        a * (b * c) == b * (a * c),
{
    lemma_mul_is_associative(a, b, c);
    lemma_mul_is_commutative(a, b);
    lemma_mul_is_associative(b, a, c);
}

/// A product of two products, regrouped.
proof fn lemma_regroup4(a: int, b: int, c: int, d: int)
    ensures
        (a * b) * (c * d) == (a * c) * (b * d),
{
    // (a b)(c d) = a (b (c d)) = a (c (b d)) = (a c)(b d)
    lemma_mul_is_associative(a, b, c * d);
    lemma_mul_is_associative(b, c, d);
    lemma_mul_is_commutative(b, c);
    lemma_mul_is_associative(c, b, d);
    lemma_mul_is_associative(a, c, b * d);
}

/// The square of `v * b + w * c`.
proof fn lemma_square_of_mix(v: int, w: int, b: int, c: int)
    ensures
        (v * b + w * c) * (v * b + w * c) == (v * v) * (b * b) + 2 * ((v * w) * (b * c)) + (w * w)
            * (c * c),
{
    let m = v * b;
    let n = w * c;
    assert((m + n) * (m + n) == m * m + 2 * (m * n) + n * n) by (nonlinear_arith);
    lemma_regroup4(v, b, v, b);
    lemma_regroup4(v, b, w, c);
    lemma_regroup4(w, c, w, c);
}

/// A point strictly inside a triangle lies strictly inside the circle
/// through its vertices. So the triangle that a new point falls in always
/// gives way to it.
pub proof fn lemma_inside_is_in_circumcircle(t: (Point, Point, Point), p: Point)
    requires
        strictly_inside(t, p),
    ensures
        in_circumcircle(t, p),
{
    let bx = t.1.x - t.0.x;
    let by = t.1.y - t.0.y;
    let cx = t.2.x - t.0.x;
    let cy = t.2.y - t.0.y;
    let qx = p.x - t.0.x;
    let qy = p.y - t.0.y;
    let det = bx * cy - by * cx;
    let big_b = bx * bx + by * by;
    let big_c = cx * cx + cy * cy;
    let dot = bx * cx + by * cy;
    // the three weights of `p` in the triangle, each times `det`
    let v = qx * cy - qy * cx;
    let w = bx * qy - by * qx;
    let u = det - v - w;
    let off_x = cy * big_b - by * big_c;
    let off_y = bx * big_c - cx * big_b;
    let den = 2 * det;
    let big_q = qx * qx + qy * qy;
    let s = qx * off_x + qy * off_y;
    let vv = v * v;
    let vw = v * w;
    let ww = w * w;

    assert(orient(t.0, t.1, t.2) == det);
    assert(orient(t.0, t.1, p) == w);
    lemma_triangle_split(t, p);
    assert(orient(t.2, t.0, p) == v) by {
        assert((-cx) * (qy - cy) - (-cy) * (qx - cx) == qx * cy - qy * cx) by (nonlinear_arith);
    }
    assert(orient(t.1, t.2, p) == u);
    assert(t.1.dist_spec(t.0) == big_b);
    assert(t.2.dist_spec(t.0) == big_c);

    // `det` times `q` is `v` times `b` plus `w` times `c`
    assert(det * qx == v * bx + w * cx) by {
        lemma_regroup3(bx, cy, qx);
        lemma_regroup3(by, cx, qx);
        lemma_regroup3(qx, cy, bx);
        lemma_regroup3(qy, cx, bx);
        lemma_regroup3(bx, qy, cx);
        lemma_regroup3(by, qx, cx);
        assert(det * qx == (bx * cy) * qx - (by * cx) * qx) by (nonlinear_arith)
            requires
                det == bx * cy - by * cx,
        ;
        assert(v * bx == (qx * cy) * bx - (qy * cx) * bx) by (nonlinear_arith)
            requires
                v == qx * cy - qy * cx,
        ;
        assert(w * cx == (bx * qy) * cx - (by * qx) * cx) by (nonlinear_arith)
            requires
                w == bx * qy - by * qx,
        ;
        lemma_regroup3(cx, qy, bx);
        lemma_regroup3(qy, bx, cx);
    }
    assert(det * qy == v * by + w * cy) by {
        lemma_regroup3(bx, cy, qy);
        lemma_regroup3(by, cx, qy);
        lemma_regroup3(qx, cy, by);
        lemma_regroup3(qy, cx, by);
        lemma_regroup3(bx, qy, cy);
        lemma_regroup3(by, qx, cy);
        assert(det * qy == (bx * cy) * qy - (by * cx) * qy) by (nonlinear_arith)
            requires
                det == bx * cy - by * cx,
        ;
        assert(v * by == (qx * cy) * by - (qy * cx) * by) by (nonlinear_arith)
            requires
                v == qx * cy - qy * cx,
        ;
        assert(w * cy == (bx * qy) * cy - (by * qx) * cy) by (nonlinear_arith)
            requires
                w == bx * qy - by * qx,
        ;
        lemma_regroup3(cy, qx, by);
        lemma_regroup3(qx, by, cy);
        lemma_regroup3(cx, by, qy);
        lemma_regroup3(cx, qy, by);
    }
    let ex = v * bx + w * cx;
    let ey = v * by + w * cy;
    lemma_square_of_mix(v, w, bx, cx);
    lemma_square_of_mix(v, w, by, cy);
    assert(vv * big_b == vv * (bx * bx) + vv * (by * by)) by (nonlinear_arith)
        requires
            big_b == bx * bx + by * by,
    ;
    assert(ww * big_c == ww * (cx * cx) + ww * (cy * cy)) by (nonlinear_arith)
        requires
            big_c == cx * cx + cy * cy,
    ;
    assert(vw * dot == vw * (bx * cx) + vw * (by * cy)) by (nonlinear_arith)
        requires
            dot == bx * cx + by * cy,
    ;
    assert(ex * ex + ey * ey == vv * big_b + 2 * (vw * dot) + ww * big_c);
    assert((det * det) * big_q == ex * ex + ey * ey) by {
        lemma_regroup4(det, qx, det, qx);
        lemma_regroup4(det, qy, det, qy);
        assert((det * det) * big_q == (det * det) * (qx * qx) + (det * det) * (qy * qy))
            by (nonlinear_arith)
            requires
                big_q == qx * qx + qy * qy,
        ;
    }
    // the dot product of `q` with the centre offset
    assert(s == big_b * v + big_c * w) by {
        assert(qx * off_x == qx * (cy * big_b) - qx * (by * big_c)) by (nonlinear_arith)
            requires
                off_x == cy * big_b - by * big_c,
        ;
        assert(qy * off_y == qy * (bx * big_c) - qy * (cx * big_b)) by (nonlinear_arith)
            requires
                off_y == bx * big_c - cx * big_b,
        ;
        assert(big_b * v == big_b * (qx * cy) - big_b * (qy * cx)) by (nonlinear_arith)
            requires
                v == qx * cy - qy * cx,
        ;
        assert(big_c * w == big_c * (bx * qy) - big_c * (by * qx)) by (nonlinear_arith)
            requires
                w == bx * qy - by * qx,
        ;
        lemma_regroup3(qx, cy, big_b);
        lemma_mul_is_commutative(qx * cy, big_b);
        lemma_regroup3(qx, by, big_c);
        lemma_mul_is_commutative(qx * by, big_c);
        lemma_mul_is_commutative(qx, by);
        lemma_regroup3(qy, bx, big_c);
        lemma_mul_is_commutative(qy * bx, big_c);
        lemma_mul_is_commutative(qy, bx);
        lemma_regroup3(qy, cx, big_b);
        lemma_mul_is_commutative(qy * cx, big_b);
    }
    let gap = big_b + big_c - 2 * dot;
    assert(gap == (bx - cx) * (bx - cx) + (by - cy) * (by - cy)) by {
        assert((bx - cx) * (bx - cx) == bx * bx - 2 * (bx * cx) + cx * cx) by (nonlinear_arith);
        assert((by - cy) * (by - cy) == by * by - 2 * (by * cy) + cy * cy) by (nonlinear_arith);
    }
    assert((bx - cx) * (bx - cx) >= 0) by (nonlinear_arith);
    assert((by - cy) * (by - cy) >= 0) by (nonlinear_arith);
    assert(bx * bx >= 0 && by * by >= 0 && cx * cx >= 0 && cy * cy >= 0) by (nonlinear_arith);
    assert(big_b > 0) by {
        if bx == 0 && by == 0 {
            assert(bx * cy - by * cx == 0) by (nonlinear_arith)
                requires
                    bx == 0,
                    by == 0,
            ;
        }
        assert(bx * bx + by * by > 0) by (nonlinear_arith)
            requires
                bx != 0 || by != 0,
        ;
    }
    lemma_weights_sign(u, v, w, big_b, big_c, gap);
    let mix = big_b * v + big_c * w;
    let rest = vw * gap + u * mix;
    assert(det * s == u * mix + vv * big_b + vw * big_c + vw * big_b + ww * big_c) by {
        assert(det * mix == u * mix + v * mix + w * mix) by (nonlinear_arith)
            requires
                det == u + v + w,
        ;
        assert(v * mix == v * (big_b * v) + v * (big_c * w)) by (nonlinear_arith)
            requires
                mix == big_b * v + big_c * w,
        ;
        assert(w * mix == w * (big_b * v) + w * (big_c * w)) by (nonlinear_arith)
            requires
                mix == big_b * v + big_c * w,
        ;
        lemma_regroup3(v, big_b, v);
        lemma_mul_is_commutative(v, v * big_b);
        lemma_mul_is_commutative(big_b, v);
        lemma_regroup3(v, v, big_b);
        lemma_regroup3(v, big_c, w);
        lemma_mul_is_commutative(big_c, v * w);
        lemma_regroup3(w, big_b, v);
        lemma_mul_is_commutative(w, v);
        lemma_mul_is_commutative(big_b, w * v);
        lemma_regroup3(w, big_c, w);
        lemma_mul_is_commutative(big_c, w * w);
    }
    assert(vw * gap == vw * big_b + vw * big_c - 2 * (vw * dot)) by (nonlinear_arith)
        requires
            gap == big_b + big_c - 2 * dot,
    ;
    assert((det * det) * big_q - det * s == -rest);
    let excess = det * big_q - s;
    assert(det * excess == -rest) by {
        lemma_regroup3(det, det, big_q);
        assert(det * excess == det * (det * big_q) - det * s) by (nonlinear_arith)
            requires
                excess == det * big_q - s,
        ;
    }
    lemma_excess(qx, qy, off_x, off_y, den);
    assert(den * (den * big_q - 2 * s) == 4 * (det * excess)) by {
        lemma_regroup3(2, det, big_q);
        assert(den * big_q - 2 * s == 2 * excess);
        assert(den * (2 * excess) == 4 * (det * excess)) by (nonlinear_arith)
            requires
                den == 2 * det,
        ;
    }
}

} // verus!
