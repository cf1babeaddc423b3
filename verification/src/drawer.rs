use vstd::prelude::*;
use crate::mesh_laws::tri_in_rect;
use crate::geometry::{orient, Point};
use crate::raster::{Raster, RasterView};
use crate::triangle::Triangle;

verus! {

/// Why a drawing could not be turned into a picture.
#[derive(Debug)]
pub enum DrawingError {
    /// The picture could not be written in its file format.
    Encoding,
    /// The drawing could not be rendered to pixels.
    Rendering,
}

/// A colour by its red, green and blue parts.
#[derive(Clone, Copy, Debug, PartialEq, Eq, Structural)]
pub struct Color {
    pub red: u8,
    pub green: u8,
    pub blue: u8,
}

/// The colour of the pixel under the centroid of `t`, if the centroid
/// lies over the raster.
pub open spec fn color_under(img: RasterView, t: (Point, Point, Point)) -> Option<Color> {
    let cx = (t.0.x + t.1.x + t.2.x) / 3;
    let cy = (t.0.y + t.1.y + t.2.y) / 3;
    if img.in_bounds(cx, cy) {
        let px = img.pixels[(cx, cy)];
        Some(Color { red: px[0], green: px[1], blue: px[2] })
    } else {
        None
    }
}

/// The colour that a triangle is filled with: that of the pixel under its
/// centroid. There is none where the centroid lies beside the raster.
pub fn fill_color(source: &Raster, triangle: &Triangle) -> (c: Option<Color>)
    ensures
        c == color_under(source@, triangle@),
{
    let (width, height) = source.dimensions();
    let center = triangle.center();
    if 0 <= center.x && center.x < width as i64 && 0 <= center.y && center.y < height as i64 {
        match source.get_pixel(center.x as u32, center.y as u32) {
            Some(px) => Some(Color { red: px[0], green: px[1], blue: px[2] }),
            None => None,
        }
    } else {
        None
    }
}

/// A triangle with area whose vertices lie in the rectangle of a raster
/// has its centroid over a pixel: there is a colour to fill it with.
pub proof fn lemma_color_exists(img: RasterView, t: (Point, Point, Point))
    requires
        orient(t.0, t.1, t.2) != 0,
        img.width <= i64::MAX,
        img.height <= i64::MAX,
        tri_in_rect(t, img.height as i64, img.width as i64),
    ensures
        color_under(img, t) is Some,
{
    let w = img.width as int;
    let h = img.height as int;
    if t.0.x == w && t.1.x == w && t.2.x == w {
        assert((t.1.x - t.0.x) * (t.2.y - t.0.y) - (t.1.y - t.0.y) * (t.2.x - t.0.x) == 0)
            by (nonlinear_arith)
            requires
                t.1.x - t.0.x == 0,
                t.2.x - t.0.x == 0,
        ;
    }
    if t.0.y == h && t.1.y == h && t.2.y == h {
        assert((t.1.x - t.0.x) * (t.2.y - t.0.y) - (t.1.y - t.0.y) * (t.2.x - t.0.x) == 0)
            by (nonlinear_arith)
            requires
                t.1.y - t.0.y == 0,
                t.2.y - t.0.y == 0,
        ;
    }
}

} // verus!
