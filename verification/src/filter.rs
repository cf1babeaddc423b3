use vstd::prelude::*;
use vstd::arithmetic::div_mod::lemma_fundamental_div_mod_converse;
use crate::kernel::{
    abs_weight, blur_view, blur_weights, edge_view, edge_weights, lemma_mass_monotone,
    lemma_odd_square_grows, mass, odd_square, Kernel, KernelView,
};
use crate::raster::{buffer_dimensions, buffer_get, buffer_new, buffer_put, Raster, RasterView};

verus! {

/// What one cell of the kernel adds to the weighted sum at `(x, y)`: its
/// weight times the red channel of the pixel under it, or nothing where
/// the cell hangs over the edge of the raster.
pub open spec fn cell_term(img: RasterView, k: KernelView, x: int, y: int, cell: int) -> int {
    let sx = x + k.offset_x(cell);
    let sy = y + k.offset_y(cell);
    if img.in_bounds(sx, sy) {
        k.weights[cell] * img.red(sx, sy)
    } else {
        0
    }
}

/// The sum of `cell_term` over the first `cells` cells of the kernel.
pub open spec fn weighted_sum(img: RasterView, k: KernelView, x: int, y: int, cells: nat) -> int
    decreases cells,
{
    if cells == 0 {
        0
    } else {
        weighted_sum(img, k, x, y, (cells - 1) as nat) + cell_term(img, k, x, y, cells - 1)
    }
}

/// The fraction `num / divisor` as a channel value: 0 below 0, 255 above
/// 255, and rounded down between them.
pub open spec fn clamp_channel(num: int, divisor: int) -> u8 {
    if num < 0 {
        0u8
    } else if num > 255 * divisor {
        255u8
    } else {
        (num / divisor) as u8
    }
}

/// The pixel that the convolution puts at `(x, y)`: the red channel is the
/// clamped weighted sum, the other channels are those of the source.
pub open spec fn convolved_pixel(img: RasterView, k: KernelView, x: int, y: int) -> Seq<u8> {
    let px = img.pixels[(x, y)];
    seq![
        clamp_channel(weighted_sum(img, k, x, y, k.weights.len()), k.divisor),
        px[1],
        px[2],
        px[3],
    ]
}

/// `out` is `img` convolved with `k`.
pub open spec fn is_convolution(out: RasterView, img: RasterView, k: KernelView) -> bool {
    &&& out.width == img.width
    &&& out.height == img.height
    &&& forall|x: int, y: int|
        img.in_bounds(x, y) ==> #[trigger] out.pixels[(x, y)] == convolved_pixel(img, k, x, y)
}

/// A weighted sum is bounded by 255 times the mass of the weights that
/// went into it.
pub proof fn lemma_weighted_sum_bound(img: RasterView, k: KernelView, x: int, y: int, cells: nat)
    requires
        cells <= k.weights.len(),
    ensures
        -255 * mass(k.weights.take(cells as int)) <= weighted_sum(img, k, x, y, cells) <= 255
            * mass(k.weights.take(cells as int)),
    decreases cells,
{
    if cells == 0 {
        assert(k.weights.take(0) =~= Seq::empty());
    } else {
        let c = (cells - 1) as nat;
        lemma_weighted_sum_bound(img, k, x, y, c);
        let now = k.weights.take(cells as int);
        assert(now.drop_last() =~= k.weights.take(c as int));
        assert(now.last() == k.weights[c as int]);
        let w = k.weights[c as int];
        let sx = x + k.offset_x(c as int);
        let sy = y + k.offset_y(c as int);
        if img.in_bounds(sx, sy) {
            let red = img.red(sx, sy);
            assert(-255 * abs_weight(w) <= w * red <= 255 * abs_weight(w)) by (nonlinear_arith)
                requires
                    0 <= red <= 255,
                    abs_weight(w) == if w < 0 {
                        -(w as int)
                    } else {
                        w as int
                    },
            ;
        }
    }
}

/// `num / divisor` brought into the range of a channel.
pub fn clamp_color(num: i128, divisor: i64) -> (c: u8)
    requires
        divisor > 0,
    ensures
        c == clamp_channel(num as int, divisor as int),
{
    let top: i128 = 255 * (divisor as i128);
    if num < 0 {
        0
    } else if num > top {
        255
    } else {
        let q: i128 = num / (divisor as i128);
        assert(0 <= q <= 255) by (nonlinear_arith)
            requires
                0 <= num <= 255 * divisor,
                divisor > 0,
                q == (num as int) / (divisor as int),
        ;
        q as u8
    }
}

/// The weighted sum of the kernel laid over the raster with its centre at
/// `(x, y)`.
fn window_sum(image: &Raster, kernel: &Kernel, x: u32, y: u32) -> (total: i128)
    ensures
        total == weighted_sum(image@, kernel@, x as int, y as int, kernel@.weights.len()),
{
    let (width, height) = buffer_dimensions(image);
    let radius = kernel.radius();
    let n = kernel.len();
    proof {
        lemma_odd_square_grows(radius as int, radius as int);
    }
    let side: usize = 2 * radius + 1;
    let ghost img = image@;
    let ghost k = kernel@;
    let mut total: i128 = 0;
    let mut row: usize = 0;
    while row < side
        invariant
            0 <= row <= side,
            side == 2 * radius + 1,
            side == k.side(),
            n == side * side,
            n == k.weights.len(),
            k == kernel@,
            k.wf(),
            k.radius == radius,
            img == image@,
            width == img.width,
            height == img.height,
            total == weighted_sum(img, k, x as int, y as int, (row * side) as nat),
        decreases side - row,
    {
        let mut col: usize = 0;
        proof {
            lemma_cell_index(row as int, 0, side as int);
        }
        while col < side
            invariant
                0 <= row < side,
                0 <= col <= side,
                side == 2 * radius + 1,
                side == k.side(),
                n == side * side,
                n == k.weights.len(),
                k == kernel@,
                k.wf(),
                k.radius == radius,
                img == image@,
                width == img.width,
                height == img.height,
                0 <= row * side + col <= n,
                total == weighted_sum(img, k, x as int, y as int, (row * side + col) as nat),
            decreases side - col,
        {
            proof {
                lemma_cell_index(row as int, col as int, side as int);
                lemma_cell_index(row as int, col as int + 1, side as int);
                lemma_fundamental_div_mod_converse(
                    row * side + col,
                    side as int,
                    row as int,
                    col as int,
                );
                lemma_weighted_sum_bound(img, k, x as int, y as int, (row * side + col) as nat);
                lemma_mass_monotone(k.weights, row * side + col);
            }
            let cell: usize = row * side + col;
            let sx: i128 = x as i128 + col as i128 - radius as i128;
            let sy: i128 = y as i128 + row as i128 - radius as i128;
            if 0 <= sx && sx < width as i128 && 0 <= sy && sy < height as i128 {
                let px = buffer_get(image, sx as u32, sy as u32);
                let w = kernel.weight(cell);
                assert(-0x8000_0000_0000_0000 * 255 <= w * px[0] <= 0x8000_0000_0000_0000 * 255)
                    by (nonlinear_arith)
                    requires
                        -0x8000_0000_0000_0000 <= w <= 0x8000_0000_0000_0000,
                        0 <= px[0] <= 255,
                ;
                total = total + (w as i128) * (px[0] as i128);
            }
            col += 1;
        }
        proof {
            assert(row * side + side == (row + 1) * side) by (nonlinear_arith);
        }
        row += 1;
    }
    total
}

/// Cells are counted row after row: the cell in row `row` and column
/// `col` is within the window, and the next row starts where this one ends.
pub proof fn lemma_cell_index(row: int, col: int, side: int)
    requires
        0 <= row < side,
        0 <= col <= side,
    ensures
        0 <= row * side + col <= side * side,
        col < side ==> row * side + col < side * side,
{
    assert(0 <= row * side && row * side + side <= side * side) by (nonlinear_arith)
        requires
            0 <= row < side,
    ;
}

/// Convolves the red channel of the raster with the kernel.
///
/// Each pixel of the result has for red the sum, over the cells of the
/// kernel centred on it, of the cell's weight times the red channel under
/// the cell. A cell that hangs over the edge adds nothing, and the other
/// weights are left as they are. The sum is clamped to 0..=255 and rounded
/// down. Green, blue and alpha are copied from the source.
pub fn convole(image: &Raster, kernel: Kernel) -> (out: Raster)
    ensures
        is_convolution(out@, image@, kernel@),
{
    let (width, height) = buffer_dimensions(image);
    let mut out = buffer_new(width, height);
    let divisor = kernel.divisor();
    let ghost img = image@;
    let ghost k = kernel@;
    let mut x: u32 = 0;
    while x < width
        invariant
            0 <= x <= width,
            img == image@,
            k == kernel@,
            divisor == k.divisor,
            divisor > 0,
            width == img.width,
            height == img.height,
            out@.width == width,
            out@.height == height,
            forall|i: int, j: int|
                0 <= i < x && 0 <= j < height ==> #[trigger] out@.pixels[(i, j)] == convolved_pixel(
                    img,
                    k,
                    i,
                    j,
                ),
        decreases width - x,
    {
        let mut y: u32 = 0;
        while y < height
            invariant
                0 <= x < width,
                0 <= y <= height,
                img == image@,
                k == kernel@,
                divisor == k.divisor,
                divisor > 0,
                width == img.width,
                height == img.height,
                out@.width == width,
                out@.height == height,
                forall|i: int, j: int|
                    0 <= i < x && 0 <= j < height ==> #[trigger] out@.pixels[(i, j)]
                        == convolved_pixel(img, k, i, j),
                forall|j: int|
                    0 <= j < y ==> #[trigger] out@.pixels[(x as int, j)] == convolved_pixel(
                        img,
                        k,
                        x as int,
                        j,
                    ),
            decreases height - y,
        {
            let px = buffer_get(image, x, y);
            let total = window_sum(image, &kernel, x, y);
            let red = clamp_color(total, divisor);
            let fresh: [u8; 4] = [red, px[1], px[2], px[3]];
            assert(fresh@ =~= convolved_pixel(img, k, x as int, y as int));
            let ghost before = out@.pixels;
            buffer_put(&mut out, x, y, fresh);
            proof {
                assert forall|i: int, j: int| 0 <= i < x && 0 <= j < height implies #[trigger] out@.pixels[(
                    i,
                    j,
                )] == convolved_pixel(img, k, i, j) by {
                    assert(out@.pixels[(i, j)] == before[(i, j)]);
                }
            }
            y += 1;
        }
        x += 1;
    }
    out
}

/// The mass of a list with one more weight.
proof fn lemma_mass_push(weights: Seq<i64>, w: i64)
    ensures
        mass(weights.push(w)) == mass(weights) + abs_weight(w),
{
    assert(weights.push(w).drop_last() =~= weights);
}

/// Two windows with the same number of cells reach equally far.
pub proof fn lemma_odd_square_injective(a: int, b: int)
    requires
        0 <= a,
        0 <= b,
        odd_square(a) == odd_square(b),
    ensures
        a == b,
{
    if a < b {
        lemma_odd_square_grows(a, b);
    }
    if b < a {
        lemma_odd_square_grows(b, a);
    }
}

/// The kernel of a box blur of the given radius: every cell of the window
/// weighs one over the number of cells.
pub fn blur_kernel(size: usize) -> (k: Kernel)
    requires
        odd_square(size as int) <= isize::MAX,
    ensures
        k@ == blur_view(size as nat),
        k@.wf(),
{
    proof {
        lemma_odd_square_grows(size as int, size as int);
    }
    let side: usize = 2 * size + 1;
    let length: usize = side * side;
    let mut weights: Vec<i64> = Vec::new();
    let mut i: usize = 0;
    while i < length
        invariant
            0 <= i <= length,
            weights@.len() == i,
            forall|j: int| 0 <= j < i ==> weights@[j] == 1i64,
            mass(weights@) == i,
        decreases length - i,
    {
        proof {
            lemma_mass_push(weights@, 1i64);
        }
        weights.push(1);
        i += 1;
    }
    assert(weights@ =~= blur_weights(size as nat));
    let made = Kernel::new(weights, length as i64);
    assert(odd_square(size as int) == length as int);
    let k = made.unwrap();
    proof {
        lemma_odd_square_injective(k@.radius as int, size as int);
    }
    k
}

/// The kernel of the edge filter of the given radius: every cell weighs
/// one over the side of the window, but for the centre, which weighs
/// minus the side.
pub fn sobel_kernel(size: usize) -> (k: Kernel)
    requires
        odd_square(size as int) <= isize::MAX,
    ensures
        k@ == edge_view(size as nat),
        k@.wf(),
{
    proof {
        lemma_odd_square_grows(size as int, size as int);
    }
    let side: usize = 2 * size + 1;
    let length: usize = side * side;
    let center: usize = length / 2;
    let mut weights: Vec<i64> = Vec::new();
    let mut i: usize = 0;
    while i < length
        invariant
            0 <= i <= length,
            center < length,
            length <= isize::MAX,
            weights@.len() == i,
            forall|j: int|
                0 <= j < i ==> weights@[j] == if j == center {
                    (-length) as i64
                } else {
                    1i64
                },
            mass(weights@) == if i > center {
                i - 1 + length
            } else {
                i as int
            },
        decreases length - i,
    {
        let w: i64 = if i == center {
            -(length as i64)
        } else {
            1
        };
        proof {
            lemma_mass_push(weights@, w);
        }
        weights.push(w);
        i += 1;
    }
    assert(weights@ =~= edge_weights(size as nat));
    let made = Kernel::new(weights, side as i64);
    assert(odd_square(size as int) == length as int);
    let k = made.unwrap();
    proof {
        lemma_odd_square_injective(k@.radius as int, size as int);
    }
    k
}

/// Blurs the red channel: each pixel takes the mean of the red channel
/// over the window of the given radius around it, where pixels beyond the
/// edge count as zero.
pub fn blur_filter(image: &Raster, size: usize) -> (out: Raster)
    requires
        odd_square(size as int) <= isize::MAX,
    ensures
        out@.width == image@.width,
        out@.height == image@.height,
        is_convolution(out@, image@, blur_view(size as nat)),
{
    let kernel = blur_kernel(size);
    convole(image, kernel)
}

/// Brings out the edges in the red channel: each pixel takes the sum of
/// the red channel over the window of the given radius around it, divided
/// by the side of the window, less the side times its own red channel.
pub fn sobel_filter(image: &Raster, size: usize) -> (out: Raster)
    requires
        odd_square(size as int) <= isize::MAX,
    ensures
        out@.width == image@.width,
        out@.height == image@.height,
        is_convolution(out@, image@, edge_view(size as nat)),
{
    let kernel = sobel_kernel(size);
    convole(image, kernel)
}

} // verus!
