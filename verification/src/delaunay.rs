use vstd::prelude::*;
use crate::geometry::{orient, same_pair, Edge, GeometryError, Point};
use crate::triangle::{in_circumcircle, side, valid_triangle, Triangle};

verus! {

/// The vertex triples of a sequence of triangles.
pub open spec fn tri_views(ts: Seq<Triangle>) -> Seq<(Point, Point, Point)> {
    ts.map_values(|t: Triangle| t@)
}

/// The end-point pairs of a sequence of edges.
pub open spec fn edge_views(es: Seq<Edge>) -> Seq<(Point, Point)> {
    es.map_values(|e: Edge| e@)
}

/// The triangles of `tris` whose circumcircle does not contain `p`, in
/// their order.
pub open spec fn kept(tris: Seq<(Point, Point, Point)>, p: Point) -> Seq<(Point, Point, Point)>
    decreases tris.len(),
{
    if tris.len() == 0 {
        Seq::empty()
    } else if in_circumcircle(tris.last(), p) {
        kept(tris.drop_last(), p)
    } else {
        kept(tris.drop_last(), p).push(tris.last())
    }
}

/// The sides of the triangles of `tris` whose circumcircle contains `p`:
/// three for each such triangle, triangle after triangle.
pub open spec fn doomed_edges(tris: Seq<(Point, Point, Point)>, p: Point) -> Seq<(Point, Point)>
    decreases tris.len(),
{
    if tris.len() == 0 {
        Seq::empty()
    } else if in_circumcircle(tris.last(), p) {
        doomed_edges(tris.drop_last(), p).push(side(tris.last(), 0)).push(
            side(tris.last(), 1),
        ).push(side(tris.last(), 2))
    } else {
        doomed_edges(tris.drop_last(), p)
    }
}

/// `j` is where the first entry of `poly` equal to `e` stands, or the
/// length of `poly` when no entry equals `e`.
pub open spec fn is_first_match(poly: Seq<(Point, Point)>, e: (Point, Point), j: int) -> bool {
    &&& 0 <= j <= poly.len()
    &&& forall|k: int| 0 <= k < j ==> !same_pair(e, #[trigger] poly[k])
    &&& j < poly.len() ==> same_pair(e, poly[j])
}

/// The position of the first entry of `poly` at or after `start` that
/// equals `e`, or the length of `poly` when there is none.
pub open spec fn first_match_from(poly: Seq<(Point, Point)>, e: (Point, Point), start: int) -> int
    decreases poly.len() - start,
{
    if start >= poly.len() {
        poly.len() as int
    } else if same_pair(e, poly[start]) {
        start
    } else {
        first_match_from(poly, e, start + 1)
    }
}

/// The position of the first entry of `poly` that equals `e`, or the
/// length of `poly` when no entry does.
pub open spec fn first_match(poly: Seq<(Point, Point)>, e: (Point, Point)) -> int {
    first_match_from(poly, e, 0)
}

/// One step of the reduction to the boundary polygon: an edge that the
/// polygon already holds cancels against its first occurrence, any other
/// edge joins the polygon at its end.
pub open spec fn cancel(poly: Seq<(Point, Point)>, e: (Point, Point)) -> Seq<(Point, Point)> {
    let j = first_match(poly, e);
    if j < poly.len() {
        poly.remove(j)
    } else {
        poly.push(e)
    }
}

/// The boundary polygon of a list of edges: the edges taken one by one in
/// their order, each cancelling against an equal edge met before.
pub open spec fn boundary(edges: Seq<(Point, Point)>) -> Seq<(Point, Point)>
    decreases edges.len(),
{
    if edges.len() == 0 {
        Seq::empty()
    } else {
        cancel(boundary(edges.drop_last()), edges.last())
    }
}

/// The triangles that join each edge of `poly` to `p`.
pub open spec fn fan(poly: Seq<(Point, Point)>, p: Point) -> Seq<(Point, Point, Point)> {
    poly.map_values(|e: (Point, Point)| (e.0, e.1, p))
}

/// No edge of `poly` lies on one line with `p`.
pub open spec fn fan_valid(poly: Seq<(Point, Point)>, p: Point) -> bool {
    forall|k: int| 0 <= k < poly.len() ==> orient((#[trigger] poly[k]).0, poly[k].1, p) != 0
}

/// The polygon that inserting `p` into `tris` opens up.
pub open spec fn cavity(tris: Seq<(Point, Point, Point)>, p: Point) -> Seq<(Point, Point)> {
    boundary(doomed_edges(tris, p))
}

/// `p` can be inserted into `tris`: it is within the coordinate bound and
/// every triangle of the fan would have area.
pub open spec fn accepts(tris: Seq<(Point, Point, Point)>, p: Point) -> bool {
    p.in_range() && fan_valid(cavity(tris, p), p)
}

/// The mesh after `p` was inserted: the kept triangles, then the fan.
pub open spec fn inserted(tris: Seq<(Point, Point, Point)>, p: Point) -> Seq<
    (Point, Point, Point),
> {
    kept(tris, p) + fan(cavity(tris, p), p)
}

/// Scanning from `start`, past entries that all differ from `e`, ends at
/// the first match.
proof fn lemma_first_match_from(poly: Seq<(Point, Point)>, e: (Point, Point), start: int)
    requires
        0 <= start <= poly.len(),
        forall|k: int| 0 <= k < start ==> !same_pair(e, #[trigger] poly[k]),
    ensures
        is_first_match(poly, e, first_match_from(poly, e, start)),
    decreases poly.len() - start,
{
    if start < poly.len() && !same_pair(e, poly[start]) {
        lemma_first_match_from(poly, e, start + 1);
    }
}

/// `first_match` is the position that `is_first_match` describes.
pub proof fn lemma_first_match_is(poly: Seq<(Point, Point)>, e: (Point, Point))
    ensures
        is_first_match(poly, e, first_match(poly, e)),
{
    lemma_first_match_from(poly, e, 0);
}

/// `is_first_match` holds of one position only.
pub proof fn lemma_first_match_unique(poly: Seq<(Point, Point)>, e: (Point, Point), j: int)
    requires
        is_first_match(poly, e, j),
    ensures
        first_match(poly, e) == j,
{
    let c = first_match(poly, e);
    lemma_first_match_is(poly, e);
    if c < j {
        assert(!same_pair(e, poly[c]));
    }
    if j < c {
        assert(!same_pair(e, poly[j]));
    }
}

/// Every entry of a boundary polygon is one of the edges it was reduced
/// from.
pub proof fn lemma_boundary_from_edges(edges: Seq<(Point, Point)>, k: int)
    requires
        0 <= k < boundary(edges).len(),
    ensures
        edges.contains(boundary(edges)[k]),
    decreases edges.len(),
{
    if edges.len() > 0 {
        let rest = boundary(edges.drop_last());
        let e = edges.last();
        let j = first_match(rest, e);
        lemma_first_match_is(rest, e);
        if j < rest.len() {
            assert(boundary(edges) == rest.remove(j));
            let k0 = if k < j {
                k
            } else {
                k + 1
            };
            assert(rest.remove(j)[k] == rest[k0]);
            lemma_boundary_from_edges(edges.drop_last(), k0);
            let i = choose|i: int|
                0 <= i < edges.drop_last().len() && edges.drop_last()[i] == rest[k0];
            assert(edges[i] == boundary(edges)[k]);
        } else if k < rest.len() {
            lemma_boundary_from_edges(edges.drop_last(), k);
            let i = choose|i: int| 0 <= i < edges.drop_last().len() && edges.drop_last()[i] == rest[k];
            assert(edges[i] == boundary(edges)[k]);
        } else {
            assert(edges[edges.len() - 1] == boundary(edges)[k]);
        }
    }
}

/// Every doomed edge is a side of a triangle of `tris` whose circumcircle
/// contains `p`.
pub proof fn lemma_doomed_edge_is_side(tris: Seq<(Point, Point, Point)>, p: Point, k: int)
    requires
        0 <= k < doomed_edges(tris, p).len(),
    ensures
        exists|i: int, s: int|
            0 <= i < tris.len() && 0 <= s < 3 && in_circumcircle(tris[i], p) && doomed_edges(
                tris,
                p,
            )[k] == #[trigger] side(tris[i], s),
    decreases tris.len(),
{
    let rest = doomed_edges(tris.drop_last(), p);
    let n = tris.len() - 1;
    if k < rest.len() {
        lemma_doomed_edge_is_side(tris.drop_last(), p, k);
        let (i, s) = choose|i: int, s: int|
            0 <= i < tris.drop_last().len() && 0 <= s < 3 && in_circumcircle(
                tris.drop_last()[i],
                p,
            ) && rest[k] == #[trigger] side(tris.drop_last()[i], s);
        assert(doomed_edges(tris, p)[k] == side(tris[i], s));
    } else {
        let s = k - rest.len();
        assert(doomed_edges(tris, p)[k] == side(tris[n], s));
    }
}

/// The two triangles that tile the rectangle of the given height and
/// width: its corners are taken clockwise from the origin, and the
/// diagonal runs from the origin to the far corner.
pub open spec fn initial_mesh(height: i64, width: i64) -> Seq<(Point, Point, Point)> {
    let a = Point { x: 0, y: 0 };
    let b = Point { x: width, y: 0 };
    let c = Point { x: width, y: height };
    let d = Point { x: 0, y: height };
    seq![(a, b, c), (a, c, d)]
}

/// Inserts `p` where it is accepted and leaves the mesh alone where not.
pub open spec fn step(tris: Seq<(Point, Point, Point)>, p: Point) -> Seq<(Point, Point, Point)> {
    if accepts(tris, p) {
        inserted(tris, p)
    } else {
        tris
    }
}

/// The mesh after the points were offered one after the other.
pub open spec fn after_points(tris: Seq<(Point, Point, Point)>, points: Seq<Point>) -> Seq<
    (Point, Point, Point),
>
    decreases points.len(),
{
    if points.len() == 0 {
        tris
    } else {
        step(after_points(tris, points.drop_last()), points.last())
    }
}

/// How many of the points were not accepted by the mesh as it stood when
/// their turn came.
pub open spec fn skipped(tris: Seq<(Point, Point, Point)>, points: Seq<Point>) -> nat
    decreases points.len(),
{
    if points.len() == 0 {
        0
    } else if accepts(after_points(tris, points.drop_last()), points.last()) {
        skipped(tris, points.drop_last())
    } else {
        skipped(tris, points.drop_last()) + 1
    }
}

/// What a mesh is, seen from outside: the rectangle it was made for and
/// its triangles as vertex triples.
pub struct Mesh {
    pub height: i64,
    pub width: i64,
    pub triangles: Seq<(Point, Point, Point)>,
}

/// Both end points of every edge are within the coordinate bound.
pub open spec fn edges_in_range(es: Seq<(Point, Point)>) -> bool {
    forall|k: int| 0 <= k < es.len() ==> (#[trigger] es[k]).0.in_range() && es[k].1.in_range()
}

/// Splits the triangles by whether their circumcircle contains `p`: those
/// that do not are returned as they are, of the others only the sides.
fn split_by_circle(triangles: &Vec<Triangle>, p: &Point) -> (r: (Vec<Triangle>, Vec<Edge>))
    requires
        p.in_range(),
    ensures
        tri_views(r.0@) == kept(tri_views(triangles@), *p),
        edge_views(r.1@) == doomed_edges(tri_views(triangles@), *p),
        edges_in_range(edge_views(r.1@)),
{
    let mut temps: Vec<Triangle> = Vec::new();
    let mut edges: Vec<Edge> = Vec::new();
    let n = triangles.len();
    let ghost all = tri_views(triangles@);
    let mut i: usize = 0;
    assert(all.take(0) =~= Seq::empty());
    while i < n
        invariant
            0 <= i <= n,
            n == triangles.len(),
            all == tri_views(triangles@),
            p.in_range(),
            tri_views(temps@) =~= kept(all.take(i as int), *p),
            edge_views(edges@) =~= doomed_edges(all.take(i as int), *p),
            edges_in_range(edge_views(edges@)),
        decreases n - i,
    {
        let t = triangles[i];
        let circle = t.circumcircle();
        let corners = t.vertex();
        proof {
            let next = all.take(i as int + 1);
            assert(next.drop_last() =~= all.take(i as int));
            assert(next.last() == t@);
        }
        if circle.contains(p) {
            let sides = t.edges();
            let ghost before = edge_views(edges@);
            edges.push(sides[0]);
            edges.push(sides[1]);
            edges.push(sides[2]);
            proof {
                let after = edge_views(edges@);
                assert(after =~= before.push(side(t@, 0)).push(side(t@, 1)).push(side(t@, 2)));
                assert forall|k: int| 0 <= k < after.len() implies (#[trigger] after[k]).0.in_range()
                    && after[k].1.in_range() by {
                    if k < before.len() {
                        assert(after[k] == before[k]);
                    }
                }
            }
        } else {
            temps.push(t);
        }
        i += 1;
    }
    assert(all.take(n as int) =~= all);
    (temps, edges)
}

/// Reduces a list of edges to its boundary polygon.
fn boundary_polygon(edges: &Vec<Edge>) -> (polygon: Vec<Edge>)
    ensures
        edge_views(polygon@) == boundary(edge_views(edges@)),
{
    let mut polygon: Vec<Edge> = Vec::new();
    let n = edges.len();
    let ghost all = edge_views(edges@);
    let mut i: usize = 0;
    assert(all.take(0) =~= Seq::empty());
    while i < n
        invariant
            0 <= i <= n,
            n == edges.len(),
            all == edge_views(edges@),
            edge_views(polygon@) =~= boundary(all.take(i as int)),
        decreases n - i,
    {
        let e = edges[i];
        let ghost before = edge_views(polygon@);
        proof {
            let next = all.take(i as int + 1);
            assert(next.drop_last() =~= all.take(i as int));
            assert(next.last() == e@);
        }
        let m = polygon.len();
        let mut j: usize = 0;
        while j < m && !(e == polygon[j])
            invariant
                0 <= j <= m,
                m == polygon.len(),
                before == edge_views(polygon@),
                forall|k: int| 0 <= k < j ==> !same_pair(e@, #[trigger] before[k]),
            decreases m - j,
        {
            j += 1;
        }
        proof {
            lemma_first_match_unique(before, e@, j as int);
        }
        if j < m {
            polygon.remove(j);
            assert(edge_views(polygon@) =~= before.remove(j as int));
        } else {
            polygon.push(e);
            assert(edge_views(polygon@) =~= before.push(e@));
        }
        i += 1;
    }
    assert(all.take(n as int) =~= all);
    polygon
}

/// Appends to `kept_triangles` the triangle from each edge of `polygon`
/// to `p`, unless one of them would have no area.
fn fan_triangles(polygon: &Vec<Edge>, p: Point, kept_triangles: Vec<Triangle>) -> (r: Option<
    Vec<Triangle>,
>)
    requires
        p.in_range(),
        edges_in_range(edge_views(polygon@)),
    ensures
        r is Some <==> fan_valid(edge_views(polygon@), p),
        r is Some ==> tri_views(r->0@) == tri_views(kept_triangles@) + fan(
            edge_views(polygon@),
            p,
        ),
{
    let mut out = kept_triangles;
    let ghost base = tri_views(kept_triangles@);
    let ghost poly = edge_views(polygon@);
    let n = polygon.len();
    let mut i: usize = 0;
    assert(fan(poly.take(0), p) =~= Seq::empty());
    while i < n
        invariant
            0 <= i <= n,
            n == polygon.len(),
            poly == edge_views(polygon@),
            edges_in_range(poly),
            p.in_range(),
            fan_valid(poly.take(i as int), p),
            tri_views(out@) =~= base + fan(poly.take(i as int), p),
        decreases n - i,
    {
        let e = polygon[i];
        assert(poly[i as int] == e@);
        match Triangle::new(e.vertex[0], e.vertex[1], p) {
            Ok(t) => {
                let ghost grown = fan(poly.take(i as int), p);
                out.push(t);
                proof {
                    assert(tri_views(out@) =~= (base + grown).push(t@));
                    assert((base + grown).push(t@) =~= base + grown.push(t@));
                    let next = poly.take(i as int + 1);
                    assert(next =~= poly.take(i as int).push(e@));
                    assert(fan(next, p) =~= fan(poly.take(i as int), p).push(t@));
                    assert forall|k: int| 0 <= k < next.len() implies orient(
                        (#[trigger] next[k]).0,
                        next[k].1,
                        p,
                    ) != 0 by {
                        if k < i {
                            assert(next[k] == poly.take(i as int)[k]);
                        }
                    }
                }
            },
            Err(_) => {
                assert(orient(poly[i as int].0, poly[i as int].1, p) == 0);
                return None;
            },
        }
        i += 1;
    }
    assert(poly.take(n as int) =~= poly);
    Some(out)
}

/// An incrementally built triangulation of a rectangle.
pub struct Delaunay {
    height: i64,
    width: i64,
    triangles: Vec<Triangle>,
}

impl View for Delaunay {
    type V = Mesh;

    /// The rectangle and the triangles of the mesh.
    closed spec fn view(&self) -> Mesh {
        Mesh { height: self.height, width: self.width, triangles: tri_views(self.triangles@) }
    }
}

/// A rectangle that a mesh can be made for: within the coordinate bound
/// and with area.
pub open spec fn valid_domain(height: i64, width: i64) -> bool {
    (Point { x: width, y: height }).in_range() && height != 0 && width != 0
}

impl Delaunay {
    #[verifier::type_invariant]
    closed spec fn inv(self) -> bool {
        valid_domain(self.height, self.width)
    }

    /// A mesh over the rectangle between the origin and `(width, height)`,
    /// made of the two triangles on either side of its diagonal.
    ///
    /// Fails with `OutOfRange` when a side is longer than the coordinate
    /// bound, and with `Degenerate` when a side is zero.
    pub fn new(height: i64, width: i64) -> (r: Result<Delaunay, GeometryError>)
        ensures
            match r {
                Ok(mesh) => valid_domain(height, width) && mesh@ == (Mesh {
                    height,
                    width,
                    triangles: initial_mesh(height, width),
                }),
                Err(GeometryError::OutOfRange) => !(Point { x: width, y: height }).in_range(),
                Err(GeometryError::Degenerate) => (Point { x: width, y: height }).in_range() && (
                height == 0 || width == 0),
            },
    {
        let corner = Point { x: width, y: height };
        if !corner.is_in_range() {
            return Err(GeometryError::OutOfRange);
        }
        if height == 0 || width == 0 {
            return Err(GeometryError::Degenerate);
        }
        let mut mesh = Delaunay { height, width, triangles: Vec::new() };
        mesh.initialize();
        Ok(mesh)
    }

    /// Puts the mesh back to the two triangles it started from.
    pub fn initialize(&mut self)
        ensures
            final(self)@ == (Mesh {
                height: old(self)@.height,
                width: old(self)@.width,
                triangles: initial_mesh(old(self)@.height, old(self)@.width),
            }),
            valid_domain(old(self)@.height, old(self)@.width),
    {
        proof {
            use_type_invariant(&*self);
        }
        let a = Point { x: 0, y: 0 };
        let b = Point { x: self.width, y: 0 };
        let c = Point { x: self.width, y: self.height };
        let d = Point { x: 0, y: self.height };
        proof {
            lemma_initial_mesh_tiles(self.height, self.width);
        }
        let mut fresh: Vec<Triangle> = Vec::new();
        match Triangle::new(a, b, c) {
            Ok(t) => {
                fresh.push(t);
            },
            Err(_) => {
                assert(false);
            },
        }
        match Triangle::new(a, c, d) {
            Ok(t) => {
                fresh.push(t);
            },
            Err(_) => {
                assert(false);
            },
        }
        assert(tri_views(fresh@) =~= initial_mesh(self.height, self.width));
        self.triangles = fresh;
    }

    /// Inserts one point: the triangles whose circumcircle contains it
    /// give way to the fan from the boundary of the hole they leave to the
    /// point.
    ///
    /// A point beyond the coordinate bound is refused with `OutOfRange`. A
    /// point that lies on one line with an edge of that boundary is
    /// refused with `Degenerate`, since the fan would hold a triangle
    /// without area. A refused point leaves the mesh as it was.
    pub fn insert_point(&mut self, p: Point) -> (r: Result<(), GeometryError>)
        ensures
            final(self)@.height == old(self)@.height,
            final(self)@.width == old(self)@.width,
            match r {
                Ok(_) => accepts(old(self)@.triangles, p) && final(self)@.triangles == inserted(
                    old(self)@.triangles,
                    p,
                ),
                Err(GeometryError::OutOfRange) => !p.in_range() && final(self)@ == old(self)@,
                Err(GeometryError::Degenerate) => p.in_range() && !accepts(
                    old(self)@.triangles,
                    p,
                ) && final(self)@ == old(self)@,
            },
    {
        proof {
            use_type_invariant(&*self);
        }
        if !p.is_in_range() {
            return Err(GeometryError::OutOfRange);
        }
        let (temps, edges) = split_by_circle(&self.triangles, &p);
        let polygon = boundary_polygon(&edges);
        proof {
            let all = edge_views(edges@);
            assert forall|k: int| 0 <= k < boundary(all).len() implies (#[trigger] boundary(
                all,
            )[k]).0.in_range() && boundary(all)[k].1.in_range() by {
                lemma_boundary_from_edges(all, k);
            }
        }
        match fan_triangles(&polygon, p, temps) {
            Some(next) => {
                self.triangles = next;
                Ok(())
            },
            None => Err(GeometryError::Degenerate),
        }
    }

    /// Offers the points to the mesh one after the other, in their order.
    /// A point that the mesh refuses is skipped; the number of skipped
    /// points is returned.
    pub fn add_points(&mut self, points: Vec<Point>) -> (refused: usize)
        ensures
            final(self)@.height == old(self)@.height,
            final(self)@.width == old(self)@.width,
            final(self)@.triangles == after_points(old(self)@.triangles, points@),
            refused == skipped(old(self)@.triangles, points@),
    {
        let n = points.len();
        let mut refused: usize = 0;
        let mut i: usize = 0;
        assert(points@.take(0) =~= Seq::empty());
        while i < n
            invariant
                0 <= i <= n,
                n == points.len(),
                refused <= i,
                self@.height == old(self)@.height,
                self@.width == old(self)@.width,
                self@.triangles == after_points(old(self)@.triangles, points@.take(i as int)),
                refused == skipped(old(self)@.triangles, points@.take(i as int)),
            decreases n - i,
        {
            proof {
                let next = points@.take(i as int + 1);
                assert(next.drop_last() =~= points@.take(i as int));
                assert(next.last() == points[i as int]);
            }
            match self.insert_point(points[i]) {
                Ok(_) => {},
                Err(_) => {
                    refused += 1;
                },
            }
            i += 1;
        }
        assert(points@.take(n as int) =~= points@);
        refused
    }

    /// The triangles of the mesh as it stands.
    pub fn triangles(&self) -> (out: Vec<Triangle>)
        ensures
            tri_views(out@) == self@.triangles,
    {
        let mut out: Vec<Triangle> = Vec::new();
        let n = self.triangles.len();
        let mut i: usize = 0;
        while i < n
            invariant
                0 <= i <= n,
                n == self.triangles.len(),
                out@ =~= self.triangles@.take(i as int),
            decreases n - i,
        {
            out.push(self.triangles[i]);
            i += 1;
        }
        assert(self.triangles@.take(n as int) =~= self.triangles@);
        out
    }
}

/// The two triangles of an initial mesh have area, turn the same way, and
/// their areas add up to that of the rectangle: they tile it.
pub proof fn lemma_initial_mesh_tiles(height: i64, width: i64)
    requires
        height != 0,
        width != 0,
    ensures
        ({
            let t = initial_mesh(height, width);
            &&& t.len() == 2
            &&& orient(t[0].0, t[0].1, t[0].2) == width * height
            &&& orient(t[1].0, t[1].1, t[1].2) == width * height
            &&& width * height != 0
        }),
{
    let w = width as int;
    let h = height as int;
    assert((w - 0) * (h - 0) - (0 - 0) * (w - 0) == w * h) by (nonlinear_arith);
    assert((w - 0) * (h - 0) - (h - 0) * (0 - 0) == w * h) by (nonlinear_arith);
    assert(w * h != 0) by (nonlinear_arith)
        requires
            w != 0,
            h != 0,
    ;
}

} // verus!
