use vstd::prelude::*;
use vstd::arithmetic::div_mod::{lemma_fundamental_div_mod, lemma_fundamental_div_mod_converse};
use crate::filter::{
    cell_term, clamp_channel, convolved_pixel, is_convolution, lemma_cell_index, weighted_sum,
};
use crate::kernel::KernelView;
use crate::raster::RasterView;

verus! {

/// All the weight of the kernel lies on its centre cell.
pub open spec fn is_centre_only(k: KernelView) -> bool {
    forall|c: int| 0 <= c < k.weights.len() && c != k.centre() ==> #[trigger] k.weights[c] == 0
}

/// Every pixel of the raster has the red channel `v`.
pub open spec fn is_uniform(img: RasterView, v: int) -> bool {
    forall|i: int, j: int| img.in_bounds(i, j) ==> #[trigger] img.red(i, j) == v
}

/// The kernel centred on `(x, y)` lies within the raster with all its
/// cells.
pub open spec fn is_interior(img: RasterView, k: KernelView, x: int, y: int) -> bool {
    &&& k.radius <= x
    &&& x + k.radius < img.width
    &&& k.radius <= y
    &&& y + k.radius < img.height
}

/// The sum of the first `cells` weights of the kernel, leaving out the
/// cells that hang over the edge of the raster when the kernel is centred
/// on `(x, y)`.
pub open spec fn covered_weight(img: RasterView, k: KernelView, x: int, y: int, cells: nat) -> int
    decreases cells,
{
    if cells == 0 {
        0
    } else if img.in_bounds(x + k.offset_x(cells - 1), y + k.offset_y(cells - 1)) {
        covered_weight(img, k, x, y, (cells - 1) as nat) + k.weights[cells - 1]
    } else {
        covered_weight(img, k, x, y, (cells - 1) as nat)
    }
}

/// The sum of the weights.
pub open spec fn total_weight(weights: Seq<i64>) -> int
    decreases weights.len(),
{
    if weights.len() == 0 {
        0
    } else {
        total_weight(weights.drop_last()) + weights.last()
    }
}

/// The centre cell is a cell of the window, and it lies over the pixel
/// that the window is centred on.
pub proof fn lemma_centre_cell(k: KernelView)
    requires
        k.wf(),
    ensures
        0 <= k.centre() < k.weights.len(),
        k.offset_x(k.centre()) == 0,
        k.offset_y(k.centre()) == 0,
{
    let r = k.radius as int;
    let side = k.side();
    lemma_cell_index(r, r, side);
    lemma_fundamental_div_mod_converse(k.centre(), side, r, r);
}

/// Every cell of the window lies no further than the radius from its
/// centre, in each direction.
pub proof fn lemma_cell_offsets(k: KernelView, cell: int)
    requires
        k.wf(),
        0 <= cell < k.weights.len(),
    ensures
        -k.radius <= k.offset_x(cell) <= k.radius,
        -k.radius <= k.offset_y(cell) <= k.radius,
{
    let side = k.side();
    let q = cell / side;
    let m = cell % side;
    lemma_fundamental_div_mod(cell, side);
    assert(0 <= m < side);
    assert(0 <= q < side) by (nonlinear_arith)
        requires
            cell == side * q + m,
            0 <= m < side,
            0 <= cell < side * side,
            side > 0,
    ;
}

/// With all the weight on the centre, the weighted sum is nothing until
/// the centre cell is reached and the centre's term from there on.
proof fn lemma_centre_only_sum(img: RasterView, k: KernelView, x: int, y: int, cells: nat)
    requires
        k.wf(),
        is_centre_only(k),
        img.in_bounds(x, y),
        cells <= k.weights.len(),
    ensures
        weighted_sum(img, k, x, y, cells) == if cells > k.centre() {
            k.weights[k.centre()] * img.red(x, y)
        } else {
            0
        },
    decreases cells,
{
    if cells > 0 {
        let c = cells - 1;
        lemma_centre_only_sum(img, k, x, y, c as nat);
        lemma_centre_cell(k);
        if c != k.centre() {
            assert(k.weights[c] == 0);
            assert(cell_term(img, k, x, y, c) == 0) by (nonlinear_arith)
                requires
                    cell_term(img, k, x, y, c) == 0 || cell_term(img, k, x, y, c) == k.weights[c]
                        * img.red(x + k.offset_x(c), y + k.offset_y(c)),
                    k.weights[c] == 0,
            ;
        }
    }
}

/// A kernel with all its weight on the centre, and weight one there,
/// gives back the raster it is laid over: the red channel of every pixel
/// comes out as it went in, and so do the other channels.
pub proof fn lemma_identity_kernel(img: RasterView, k: KernelView, x: int, y: int)
    requires
        k.wf(),
        is_centre_only(k),
        k.weights[k.centre()] == k.divisor,
        img.in_bounds(x, y),
    ensures
        convolved_pixel(img, k, x, y)[0] == img.pixels[(x, y)][0],
        convolved_pixel(img, k, x, y)[1] == img.pixels[(x, y)][1],
        convolved_pixel(img, k, x, y)[2] == img.pixels[(x, y)][2],
        convolved_pixel(img, k, x, y)[3] == img.pixels[(x, y)][3],
{
    lemma_centre_cell(k);
    lemma_centre_only_sum(img, k, x, y, k.weights.len());
    let d = k.divisor;
    let red = img.red(x, y);
    assert(0 <= d * red <= 255 * d && (d * red) / d == red) by (nonlinear_arith)
        requires
            d > 0,
            0 <= red <= 255,
    ;
}

/// Over a raster of one colour the weighted sum is that colour's red
/// channel times the weight that lies within the raster.
pub proof fn lemma_uniform_sum(img: RasterView, k: KernelView, x: int, y: int, v: int, cells: nat)
    requires
        is_uniform(img, v),
    ensures
        weighted_sum(img, k, x, y, cells) == v * covered_weight(img, k, x, y, cells),
    decreases cells,
{
    if cells > 0 {
        let c = (cells - 1) as nat;
        lemma_uniform_sum(img, k, x, y, v, c);
        let before = covered_weight(img, k, x, y, c);
        let w = k.weights[c as int] as int;
        assert(v * (before + w) == v * before + w * v) by (nonlinear_arith);
    } else {
        assert(v * 0 == 0);
    }
}

/// Where the whole window lies within the raster, the weight that lies
/// within the raster is all the weight.
pub proof fn lemma_interior_covered(img: RasterView, k: KernelView, x: int, y: int, cells: nat)
    requires
        k.wf(),
        is_interior(img, k, x, y),
        cells <= k.weights.len(),
    ensures
        covered_weight(img, k, x, y, cells) == total_weight(k.weights.take(cells as int)),
    decreases cells,
{
    if cells == 0 {
        assert(k.weights.take(0) =~= Seq::empty());
    } else {
        let c = (cells - 1) as nat;
        lemma_interior_covered(img, k, x, y, c);
        lemma_cell_offsets(k, c as int);
        let now = k.weights.take(cells as int);
        assert(now.drop_last() =~= k.weights.take(c as int));
        assert(now.last() == k.weights[c as int]);
    }
}

/// Over a raster of one colour, a kernel whose weights sum to zero gives
/// a red channel of zero wherever its whole window lies within the
/// raster. Nearer to the edge, cells of the window are left out and the
/// rest of the weights need not sum to zero: there the red channel is the
/// colour's red times the weight that is left, clamped.
pub proof fn lemma_zero_sum_kernel(img: RasterView, k: KernelView, x: int, y: int, v: int)
    requires
        k.wf(),
        is_uniform(img, v),
        img.in_bounds(x, y),
    ensures
        convolved_pixel(img, k, x, y)[0] == clamp_channel(
            v * covered_weight(img, k, x, y, k.weights.len()),
            k.divisor,
        ),
        is_interior(img, k, x, y) && total_weight(k.weights) == 0 ==> convolved_pixel(
            img,
            k,
            x,
            y,
        )[0] == 0,
{
    lemma_uniform_sum(img, k, x, y, v, k.weights.len());
    if is_interior(img, k, x, y) && total_weight(k.weights) == 0 {
        lemma_interior_covered(img, k, x, y, k.weights.len());
        assert(k.weights.take(k.weights.len() as int) =~= k.weights);
        assert(v * 0 == 0);
        assert(0int / k.divisor == 0) by (nonlinear_arith)
            requires
                k.divisor > 0,
        ;
    }
}

/// Two rasters of the same size that hold the same pixels.
pub open spec fn same_picture(a: RasterView, b: RasterView) -> bool {
    &&& a.width == b.width
    &&& a.height == b.height
    &&& forall|x: int, y: int| a.in_bounds(x, y) ==> #[trigger] a.pixels[(x, y)] == b.pixels[(x, y)]
}

/// The weighted sum looks at the pixels of the raster and at nothing
/// else.
pub proof fn lemma_weighted_sum_same(
    a: RasterView,
    b: RasterView,
    k: KernelView,
    x: int,
    y: int,
    cells: nat,
)
    requires
        same_picture(a, b),
    ensures
        weighted_sum(a, k, x, y, cells) == weighted_sum(b, k, x, y, cells),
    decreases cells,
{
    if cells > 0 {
        lemma_weighted_sum_same(a, b, k, x, y, (cells - 1) as nat);
        let sx = x + k.offset_x(cells - 1);
        let sy = y + k.offset_y(cells - 1);
        if a.in_bounds(sx, sy) {
            assert(a.pixels[(sx, sy)] == b.pixels[(sx, sy)]);
        }
    }
}

/// Convolution is a function of the picture and the kernel: the same
/// picture under the same kernel gives the same picture.
pub proof fn lemma_convolution_same(
    out_a: RasterView,
    out_b: RasterView,
    a: RasterView,
    b: RasterView,
    k: KernelView,
)
    requires
        same_picture(a, b),
        is_convolution(out_a, a, k),
        is_convolution(out_b, b, k),
    ensures
        same_picture(out_a, out_b),
{
    assert forall|x: int, y: int| out_a.in_bounds(x, y) implies #[trigger] out_a.pixels[(x, y)]
        == out_b.pixels[(x, y)] by {
        lemma_weighted_sum_same(a, b, k, x, y, k.weights.len());
        assert(a.pixels[(x, y)] == b.pixels[(x, y)]);
        assert(out_a.pixels[(x, y)] == convolved_pixel(a, k, x, y));
        assert(out_b.pixels[(x, y)] == convolved_pixel(b, k, x, y));
    }
}

} // verus!
