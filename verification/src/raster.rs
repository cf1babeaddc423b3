use vstd::prelude::*;

verus! {

/// `image::DynamicImage`: a decoded picture of any pixel format. Nothing
/// of what it holds is visible here but through the functions below.
#[verifier::external_type_specification]
#[verifier::external_body]
pub struct ExDynamicImage(image::DynamicImage);

/// A raster of pixels with four 8-bit channels each: red, green, blue and
/// alpha. It is an `image::RgbaImage` kept behind the library's own name;
/// what it holds is visible only through `raster_width`, `raster_height`
/// and `raster_pixels`, as far as the functions below say.
#[verifier::external_body]
pub struct Raster {
    inner: image::RgbaImage,
}

/// The number of pixels in each row of the raster.
pub uninterp spec fn raster_width(raster: Raster) -> nat;

/// The number of rows of the raster.
pub uninterp spec fn raster_height(raster: Raster) -> nat;

/// The pixels of the raster: to each position `(x, y)` within its bounds
/// the four channel values there.
pub uninterp spec fn raster_pixels(raster: Raster) -> Map<(int, int), Seq<u8>>;

/// The width of a decoded image, in pixels.
pub uninterp spec fn decoded_width(image: image::DynamicImage) -> nat;

/// The height of a decoded image, in pixels.
pub uninterp spec fn decoded_height(image: image::DynamicImage) -> nat;

/// The pixels of a decoded image once it is brought to four 8-bit
/// channels, by position.
pub uninterp spec fn decoded_pixels(image: image::DynamicImage) -> Map<(int, int), Seq<u8>>;

/// The pixels of the grayscale rendition of a decoded image, brought to
/// four 8-bit channels, by position.
pub uninterp spec fn desaturated_pixels(image: image::DynamicImage) -> Map<(int, int), Seq<u8>>;

/// The length of a buffer of four channels for each pixel can be
/// computed in `usize`: first four times the width, then that times the
/// height. The first product has to fit even where the height is zero.
pub open spec fn buffer_fits(width: nat, height: nat) -> bool {
    4 * width <= usize::MAX && 4 * width * height <= usize::MAX
}

/// What a raster is, seen from outside.
pub struct RasterView {
    pub width: nat,
    pub height: nat,
    pub pixels: Map<(int, int), Seq<u8>>,
}

impl RasterView {
    /// `(x, y)` is the position of a pixel of the raster.
    pub open spec fn in_bounds(self, x: int, y: int) -> bool {
        0 <= x < self.width && 0 <= y < self.height
    }

    /// The red channel of the pixel at `(x, y)`.
    pub open spec fn red(self, x: int, y: int) -> int {
        self.pixels[(x, y)][0] as int
    }

    /// The length of the buffer can be computed: four channel values times
    /// the width, and that times the height, each within `usize`.
    pub open spec fn fits(self) -> bool {
        buffer_fits(self.width, self.height)
    }
}

impl View for Raster {
    type V = RasterView;

    /// Size and pixels of the raster.
    open spec fn view(&self) -> RasterView {
        RasterView {
            width: raster_width(*self),
            height: raster_height(*self),
            pixels: raster_pixels(*self),
        }
    }
}

/// `ImageBuffer::new`: a buffer of the given size with every channel of
/// every pixel zero. It computes the buffer's length as four times the
/// width, times the height, and panics when either product does not fit
/// in `usize`; the precondition rules both out.
#[verifier::external_body]
pub(crate) fn buffer_new(width: u32, height: u32) -> (raster: Raster)
    requires
        4 * width <= usize::MAX,
        4 * width * height <= usize::MAX,
    ensures
        raster_width(raster) == width,
        raster_height(raster) == height,
        forall|x: int, y: int|
            0 <= x < width && 0 <= y < height ==> #[trigger] raster_pixels(raster)[(x, y)]
                == seq![0u8, 0u8, 0u8, 0u8],
{
    Raster { inner: image::RgbaImage::new(width, height) }
}

/// `ImageBuffer::dimensions`: width and height. Every constructor of the
/// buffer computes its length as four times the width, times the height,
/// and makes no buffer where one of the two products does not fit in
/// `usize`.
#[verifier::external_body]
pub(crate) fn buffer_dimensions(raster: &Raster) -> (dims: (u32, u32))
    ensures
        dims.0 == raster_width(*raster),
        dims.1 == raster_height(*raster),
        4 * dims.0 <= usize::MAX,
        4 * dims.0 * dims.1 <= usize::MAX,
{
    raster.inner.dimensions()
}

/// `ImageBuffer::get_pixel`: the four channels of the pixel at `(x, y)`.
/// It panics outside the bounds, which the precondition rules out.
#[verifier::external_body]
pub(crate) fn buffer_get(raster: &Raster, x: u32, y: u32) -> (px: [u8; 4])
    requires
        x < raster_width(*raster),
        y < raster_height(*raster),
    ensures
        px@ == raster_pixels(*raster)[(x as int, y as int)],
{
    raster.inner.get_pixel(x, y).0
}

/// `ImageBuffer::put_pixel`: the pixel at `(x, y)` takes the given
/// channels, every other pixel and the size stay. It panics outside the
/// bounds, which the precondition rules out.
#[verifier::external_body]
pub(crate) fn buffer_put(raster: &mut Raster, x: u32, y: u32, px: [u8; 4])
    requires
        x < raster_width(*old(raster)),
        y < raster_height(*old(raster)),
    ensures
        raster_width(*final(raster)) == raster_width(*old(raster)),
        raster_height(*final(raster)) == raster_height(*old(raster)),
        raster_pixels(*final(raster)) == raster_pixels(*old(raster)).insert(
            (x as int, y as int),
            px@,
        ),
{
    raster.inner.put_pixel(x, y, image::Rgba(px))
}

/// `DynamicImage::width`.
pub assume_specification[ image::DynamicImage::width ](image: &image::DynamicImage) -> (w: u32)
    ensures
        w == decoded_width(*image),
;

/// `DynamicImage::height`.
pub assume_specification[ image::DynamicImage::height ](image: &image::DynamicImage) -> (h: u32)
    ensures
        h == decoded_height(*image),
;

/// `DynamicImage::to_rgba8`: a copy of the image with four 8-bit channels,
/// of the same size. It allocates with `ImageBuffer::new`, which panics
/// when four times the width, or that times the height, does not fit in
/// `usize`; the precondition rules both out.
#[verifier::external_body]
pub(crate) fn decoded_to_rgba8(image: &image::DynamicImage) -> (raster: Raster)
    requires
        4 * decoded_width(*image) <= usize::MAX,
        4 * decoded_width(*image) * decoded_height(*image) <= usize::MAX,
    ensures
        raster_width(raster) == decoded_width(*image),
        raster_height(raster) == decoded_height(*image),
        raster_pixels(raster) == decoded_pixels(*image),
{
    Raster { inner: image.to_rgba8() }
}

/// `DynamicImage::grayscale`: a grayscale version of the image, of the
/// same size.
#[verifier::external_body]
pub(crate) fn decoded_grayscale(image: &image::DynamicImage) -> (gray: image::DynamicImage)
    ensures
        decoded_width(gray) == decoded_width(*image),
        decoded_height(gray) == decoded_height(*image),
        decoded_pixels(gray) == desaturated_pixels(*image),
{
    image.grayscale()
}

impl Raster {
    /// A raster of the given size with every channel zero, or `None` when
    /// the length of its buffer cannot be computed in `usize`.
    pub fn new(width: u32, height: u32) -> (r: Option<Raster>)
        ensures
            r is Some <==> buffer_fits(width as nat, height as nat),
            r is Some ==> r->0@.width == width && r->0@.height == height && forall|x: int, y: int|
                r->0@.in_bounds(x, y) ==> #[trigger] r->0@.pixels[(x, y)] == seq![
                    0u8,
                    0u8,
                    0u8,
                    0u8,
                ],
    {
        assert(width * height <= 0xffff_ffff * 0xffff_ffff) by (nonlinear_arith)
            requires
                width <= 0xffff_ffff,
                height <= 0xffff_ffff,
        ;
        assert(4 * width * height == 4 * (width * height)) by (nonlinear_arith);
        let area: u64 = (width as u64) * (height as u64);
        let length: u128 = 4 * (area as u128);
        let row: u64 = 4 * (width as u64);
        if row <= usize::MAX as u64 && length <= usize::MAX as u128 {
            Some(buffer_new(width, height))
        } else {
            None
        }
    }

    /// Width and height, in this order.
    pub fn dimensions(&self) -> (dims: (u32, u32))
        ensures
            dims.0 == self@.width,
            dims.1 == self@.height,
            self@.fits(),
    {
        buffer_dimensions(self)
    }

    /// The number of pixels in each row.
    pub fn width(&self) -> (w: u32)
        ensures
            w == self@.width,
    {
        buffer_dimensions(self).0
    }

    /// The number of rows.
    pub fn height(&self) -> (h: u32)
        ensures
            h == self@.height,
    {
        buffer_dimensions(self).1
    }

    /// The four channels of the pixel at `(x, y)`, or `None` outside the
    /// raster.
    pub fn get_pixel(&self, x: u32, y: u32) -> (px: Option<[u8; 4]>)
        ensures
            px is Some <==> self@.in_bounds(x as int, y as int),
            px is Some ==> px->0@ == self@.pixels[(x as int, y as int)],
    {
        let (width, height) = buffer_dimensions(self);
        if x < width && y < height {
            Some(buffer_get(self, x, y))
        } else {
            None
        }
    }

    /// Sets the pixel at `(x, y)` and says `true`, or leaves the raster as
    /// it is and says `false` when `(x, y)` lies outside of it.
    pub fn put_pixel(&mut self, x: u32, y: u32, px: [u8; 4]) -> (done: bool)
        ensures
            done == old(self)@.in_bounds(x as int, y as int),
            final(self)@.width == old(self)@.width,
            final(self)@.height == old(self)@.height,
            done ==> final(self)@.pixels == old(self)@.pixels.insert((x as int, y as int), px@),
            !done ==> final(self)@ == old(self)@,
    {
        let (width, height) = buffer_dimensions(self);
        if x < width && y < height {
            buffer_put(self, x, y, px);
            true
        } else {
            false
        }
    }
}

} // verus!
