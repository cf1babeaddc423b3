use vstd::prelude::*;
use crate::delaunay::{after_points, initial_mesh, tri_views, Delaunay};
use crate::filter::{blur_filter, is_convolution, sobel_filter};
use crate::filter_laws::{lemma_convolution_same, same_picture};
use crate::geometry::{GeometryError, Point, COORD_LIMIT};
use crate::kernel::{blur_view, edge_view, odd_square};
use crate::mesh_laws::{all_in_rect, in_rect, lemma_mesh_in_rect};
use crate::raster::{
    decoded_grayscale, decoded_height, decoded_pixels, decoded_to_rgba8, decoded_width,
    desaturated_pixels, Raster, RasterView,
};
use crate::sampler::{
    candidates, draw_points, find_candidates, is_pixel, lemma_candidates_in_bounds,
    lemma_candidates_same, sample_count, sample_limit,
};
use crate::triangle::Triangle;

verus! {

/// A fraction that is not negative.
#[derive(Clone, Copy, Debug)]
pub struct Rate {
    numerator: u64,
    denominator: u64,
}

impl View for Rate {
    type V = (nat, nat);

    /// Numerator and denominator, in this order.
    closed spec fn view(&self) -> (nat, nat) {
        (self.numerator as nat, self.denominator as nat)
    }
}

impl Rate {
    #[verifier::type_invariant]
    closed spec fn inv(self) -> bool {
        self.denominator > 0
    }

    /// The fraction `numerator / denominator`, if the denominator is not
    /// zero.
    pub fn new(numerator: u64, denominator: u64) -> (r: Option<Rate>)
        ensures
            r is Some <==> denominator > 0,
            r is Some ==> r->0@ == (numerator as nat, denominator as nat),
    {
        if denominator > 0 {
            Some(Rate { numerator, denominator })
        } else {
            None
        }
    }

    /// What the fraction is of.
    pub fn numerator(&self) -> (n: u64)
        ensures
            n == self@.0,
    {
        self.numerator
    }

    /// What the fraction is in; never zero.
    pub fn denominator(&self) -> (d: u64)
        ensures
            d == self@.1,
            d > 0,
    {
        proof {
            use_type_invariant(self);
        }
        self.denominator
    }
}

/// The settings of a run: how far to blur, how wide to look for edges,
/// which pixels stand out, and how many of them become vertices.
pub struct Triangulation {
    /// Radius of the blur.
    pub blur_factor: usize,
    /// Radius of the edge filter.
    pub sobel_factor: usize,
    /// The most points that are drawn.
    pub max_points: usize,
    /// A pixel stands out when the mean around it is above this.
    pub points_threshold: i32,
    /// The share of the pixels that stand out which is drawn.
    pub point_rate: Rate,
    /// Whether the picture is turned to gray first.
    pub grayscale: bool,
}

impl Default for Triangulation {
    /// A light blur, a wide edge filter, and three in forty of the
    /// pixels that stand out, up to 2500 of them.
    fn default() -> (t: Self)
        ensures
            t.blur_factor == 1,
            t.sobel_factor == 6,
            t.max_points == 2500,
            t.points_threshold == 10,
            t.point_rate@ == (3nat, 40nat),
            !t.grayscale,
            t.wf(),
    {
        assert(odd_square(1) == 9 && odd_square(6) == 169) by (nonlinear_arith);
        Triangulation {
            blur_factor: 1,
            sobel_factor: 6,
            points_threshold: 10,
            grayscale: false,
            max_points: 2500,
            point_rate: Rate { numerator: 3, denominator: 40 },
        }
    }
}

/// `points` is a draw from the pixels of `edges` that stand out: as many
/// as the settings ask for, each of them one of those pixels.
pub open spec fn is_sample(points: Seq<Point>, edges: RasterView, config: Triangulation) -> bool {
    let found = candidates(edges, config.points_threshold);
    &&& points.len() == sample_limit(
        found.len(),
        config.point_rate@.0,
        config.point_rate@.1,
        config.max_points as nat,
    )
    &&& forall|i: int| 0 <= i < points.len() ==> found.contains(#[trigger] points[i])
}

/// The triangles that a run ends with: none where no point was drawn,
/// else the mesh over the whole raster after the points were offered to
/// it in their order.
pub open spec fn mesh_of(height: nat, width: nat, points: Seq<Point>) -> Seq<
    (Point, Point, Point),
> {
    if points.len() == 0 {
        Seq::empty()
    } else {
        after_points(initial_mesh(height as i64, width as i64), points)
    }
}

/// The stages of one run fit together: `blurred` is the blur of `source`,
/// `edges` the edge filter of `blurred`, `points` a draw from `edges`, and
/// `triangles` the mesh of those points.
pub open spec fn is_run_through(
    config: Triangulation,
    source: RasterView,
    blurred: RasterView,
    edges: RasterView,
    points: Seq<Point>,
    triangles: Seq<(Point, Point, Point)>,
) -> bool {
    &&& is_convolution(blurred, source, blur_view(config.blur_factor as nat))
    &&& is_convolution(edges, blurred, edge_view(config.sobel_factor as nat))
    &&& is_sample(points, edges, config)
    &&& triangles == mesh_of(source.height, source.width, points)
}

/// `triangles` can come out of a run over `source`: there are a blurred
/// raster, an edge raster and a draw of points that lead from the one to
/// the other.
pub open spec fn is_run(
    config: Triangulation,
    source: RasterView,
    triangles: Seq<(Point, Point, Point)>,
) -> bool {
    exists|blurred: RasterView, edges: RasterView, points: Seq<Point>|
        is_run_through(config, source, blurred, edges, points, triangles)
}

/// A raster is too large for a mesh when a side is longer than the
/// coordinate bound.
pub open spec fn too_large(width: nat, height: nat) -> bool {
    width > COORD_LIMIT || height > COORD_LIMIT
}

impl Triangulation {
    /// Both radii give windows with few enough cells to be stored.
    pub open spec fn wf(self) -> bool {
        &&& odd_square(self.blur_factor as int) <= isize::MAX
        &&& odd_square(self.sobel_factor as int) <= isize::MAX
    }

    /// Draws the points that become vertices from the pixels of an edge
    /// raster that stand out.
    ///
    /// No more than `max_points` are drawn, each is a pixel of the raster,
    /// and none is drawn where no pixel stands out.
    pub fn get_points(&self, image: &Raster) -> (points: Vec<Point>)
        ensures
            is_sample(points@, image@, *self),
            points.len() <= self.max_points,
            forall|i: int| 0 <= i < points.len() ==> is_pixel(image@, #[trigger] points[i]),
            candidates(image@, self.points_threshold).len() == 0 ==> points.len() == 0,
    {
        let (width, height) = image.dimensions();
        let found = find_candidates(image, self.points_threshold);
        let limit = sample_count(
            found.len(),
            self.point_rate.numerator(),
            self.point_rate.denominator(),
            self.max_points,
        );
        let points = draw_points(&found, limit);
        proof {
            assert forall|i: int| 0 <= i < points.len() implies is_pixel(
                image@,
                #[trigger] points[i],
            ) by {
                let k = choose|k: int| 0 <= k < found@.len() && found@[k] == points[i];
                lemma_candidates_in_bounds(image@, self.points_threshold, image@.width, k);
            }
        }
        points
    }

    /// Runs blur, edge filter, sampling and triangulation over a raster
    /// and returns the triangles.
    ///
    /// A raster with a side longer than the coordinate bound is refused
    /// with `OutOfRange`. Where no point is drawn there is no triangle. A
    /// drawn point that the mesh refuses, because it would bring in a
    /// triangle without area, is skipped.
    pub fn triangulate(&self, source: &Raster) -> (r: Result<Vec<Triangle>, GeometryError>)
        requires
            self.wf(),
        ensures
            match r {
                Ok(triangles) => {
                    &&& !too_large(source@.width, source@.height)
                    &&& is_run(*self, source@, tri_views(triangles@))
                    &&& all_in_rect(
                        tri_views(triangles@),
                        source@.height as i64,
                        source@.width as i64,
                    )
                },
                Err(e) => e == GeometryError::OutOfRange && too_large(
                    source@.width,
                    source@.height,
                ),
            },
    {
        let (width, height) = source.dimensions();
        if width as i64 > COORD_LIMIT || height as i64 > COORD_LIMIT {
            return Err(GeometryError::OutOfRange);
        }
        let blurred = blur_filter(source, self.blur_factor);
        let edges = sobel_filter(&blurred, self.sobel_factor);
        let points = self.get_points(&edges);
        let ghost drawn = points@;
        if points.len() == 0 {
            let none: Vec<Triangle> = Vec::new();
            assert(tri_views(none@) =~= mesh_of(source@.height, source@.width, drawn));
            assert(is_run_through(*self, source@, blurred@, edges@, drawn, tri_views(none@)));
            return Ok(none);
        }
        assert(is_pixel(edges@, points[0]));
        match Delaunay::new(height as i64, width as i64) {
            Ok(mesh) => {
                let mut mesh = mesh;
                let _ = mesh.add_points(points);
                let triangles = mesh.triangles();
                proof {
                    assert forall|i: int| 0 <= i < drawn.len() implies in_rect(
                        #[trigger] drawn[i],
                        height as i64,
                        width as i64,
                    ) by {
                        assert(is_pixel(edges@, drawn[i]));
                    }
                    lemma_mesh_in_rect(height as i64, width as i64, drawn);
                }
                assert(is_run_through(
                    *self,
                    source@,
                    blurred@,
                    edges@,
                    drawn,
                    tri_views(triangles@),
                ));
                Ok(triangles)
            },
            Err(_) => {
                assert(false);
                Err(GeometryError::Degenerate)
            },
        }
    }

    /// Brings a decoded picture to four channels, in gray if the settings
    /// say so, and triangulates it. Returns the triangles and the raster
    /// they were made from, which holds the colours for them.
    ///
    /// A picture is refused with `OutOfRange` when a side is longer than
    /// the coordinate bound or its four-channel buffer would be longer
    /// than `usize` can say.
    pub fn generate_triangle(&self, image: image::DynamicImage) -> (r: Result<
        (Vec<Triangle>, Raster),
        GeometryError,
    >)
        requires
            self.wf(),
        ensures
            match r {
                Ok((triangles, source)) => {
                    &&& !too_large(decoded_width(image), decoded_height(image))
                    &&& 4 * decoded_width(image) * decoded_height(image) <= usize::MAX
                    &&& source@.width == decoded_width(image)
                    &&& source@.height == decoded_height(image)
                    &&& source@.pixels == if self.grayscale {
                        desaturated_pixels(image)
                    } else {
                        decoded_pixels(image)
                    }
                    &&& is_run(*self, source@, tri_views(triangles@))
                    &&& all_in_rect(
                        tri_views(triangles@),
                        source@.height as i64,
                        source@.width as i64,
                    )
                },
                Err(e) => e == GeometryError::OutOfRange && (too_large(
                    decoded_width(image),
                    decoded_height(image),
                ) || 4 * decoded_width(image) * decoded_height(image) > usize::MAX),
            },
    {
        let width = image.width();
        let height = image.height();
        if width as i64 > COORD_LIMIT || height as i64 > COORD_LIMIT {
            return Err(GeometryError::OutOfRange);
        }
        assert(width * height <= 0x2000_0000 * 0x2000_0000) by (nonlinear_arith)
            requires
                width <= 0x2000_0000,
                height <= 0x2000_0000,
        ;
        assert(4 * width * height == 4 * (width * height)) by (nonlinear_arith);
        let length: u64 = 4 * ((width as u64) * (height as u64));
        if length > usize::MAX as u64 {
            return Err(GeometryError::OutOfRange);
        }
        let source = if self.grayscale {
            let gray = decoded_grayscale(&image);
            decoded_to_rgba8(&gray)
        } else {
            decoded_to_rgba8(&image)
        };
        match self.triangulate(&source) {
            Ok(triangles) => Ok((triangles, source)),
            Err(e) => Err(e),
        }
    }
}

/// A run is determined by its picture, its settings and its draw. Two
/// runs over the same picture with the same settings find the same pixels
/// that stand out, in the same order, so that the same draws pick the same
/// points; and runs that drew the same points end with the same
/// triangles. Chance enters a run through the draw and nowhere else.
pub proof fn lemma_runs_agree(
    config: Triangulation,
    source: RasterView,
    blurred_a: RasterView,
    edges_a: RasterView,
    points_a: Seq<Point>,
    triangles_a: Seq<(Point, Point, Point)>,
    blurred_b: RasterView,
    edges_b: RasterView,
    points_b: Seq<Point>,
    triangles_b: Seq<(Point, Point, Point)>,
)
    requires
        is_run_through(config, source, blurred_a, edges_a, points_a, triangles_a),
        is_run_through(config, source, blurred_b, edges_b, points_b, triangles_b),
    ensures
        same_picture(blurred_a, blurred_b),
        same_picture(edges_a, edges_b),
        candidates(edges_a, config.points_threshold) == candidates(
            edges_b,
            config.points_threshold,
        ),
        points_a.len() == points_b.len(),
        points_a == points_b ==> triangles_a == triangles_b,
{
    assert(same_picture(source, source));
    lemma_convolution_same(
        blurred_a,
        blurred_b,
        source,
        source,
        blur_view(config.blur_factor as nat),
    );
    lemma_convolution_same(
        edges_a,
        edges_b,
        blurred_a,
        blurred_b,
        edge_view(config.sobel_factor as nat),
    );
    lemma_candidates_same(edges_a, edges_b, config.points_threshold, edges_a.width);
}

} // verus!
