use vstd::prelude::*;
use crate::filter_laws::same_picture;
use crate::geometry::Point;
use crate::raster::{buffer_dimensions, buffer_get, Raster, RasterView};

verus! {

/// `rand::rngs::ThreadRng`: the handle of a thread's random number
/// generator. It is only handed on to `Rng::gen_range`.
#[verifier::external_type_specification]
#[verifier::external_body]
pub struct ExThreadRng(rand::rngs::ThreadRng);

/// The red channel at `(x, y)`, or zero beyond the edge of the raster.
pub open spec fn red_or_zero(img: RasterView, x: int, y: int) -> int {
    if img.in_bounds(x, y) {
        img.red(x, y)
    } else {
        0
    }
}

/// One for a position within the raster, zero for one beyond its edge.
pub open spec fn one_or_zero(img: RasterView, x: int, y: int) -> int {
    if img.in_bounds(x, y) {
        1
    } else {
        0
    }
}

/// The red channel summed over `(x, y - 1)`, `(x, y)` and `(x, y + 1)`, as
/// far as they lie within the raster.
pub open spec fn column_sum(img: RasterView, x: int, y: int) -> int {
    red_or_zero(img, x, y - 1) + red_or_zero(img, x, y) + red_or_zero(img, x, y + 1)
}

/// How many of `(x, y - 1)`, `(x, y)` and `(x, y + 1)` lie within the
/// raster.
pub open spec fn column_count(img: RasterView, x: int, y: int) -> int {
    one_or_zero(img, x, y - 1) + one_or_zero(img, x, y) + one_or_zero(img, x, y + 1)
}

/// The red channel summed over the three by three window around `(x, y)`,
/// as far as it lies within the raster.
pub open spec fn local_sum(img: RasterView, x: int, y: int) -> int {
    column_sum(img, x - 1, y) + column_sum(img, x, y) + column_sum(img, x + 1, y)
}

/// The number of pixels of the three by three window around `(x, y)` that
/// lie within the raster.
pub open spec fn local_count(img: RasterView, x: int, y: int) -> int {
    column_count(img, x - 1, y) + column_count(img, x, y) + column_count(img, x + 1, y)
}

/// The mean of the red channel over the part of the three by three window
/// around `(x, y)` that lies within the raster, rounded down.
pub open spec fn local_average(img: RasterView, x: int, y: int) -> int {
    if local_count(img, x, y) > 0 {
        local_sum(img, x, y) / local_count(img, x, y)
    } else {
        0
    }
}

/// The pixel at `(x, y)` stands out: the mean of the red channel around
/// it, the exact mean and not the rounded one, is above the threshold.
/// The sum is compared with the threshold times the count, so that no
/// division is needed.
pub open spec fn is_candidate(img: RasterView, threshold: i32, x: int, y: int) -> bool {
    local_count(img, x, y) > 0 && local_sum(img, x, y) > threshold * local_count(img, x, y)
}

/// The candidates among the first `rows` pixels of column `x`, from the
/// top down.
pub open spec fn column_candidates(img: RasterView, threshold: i32, x: int, rows: nat) -> Seq<
    Point,
>
    decreases rows,
{
    if rows == 0 {
        Seq::empty()
    } else if is_candidate(img, threshold, x, rows - 1) {
        column_candidates(img, threshold, x, (rows - 1) as nat).push(
            Point { x: x as i64, y: (rows - 1) as i64 },
        )
    } else {
        column_candidates(img, threshold, x, (rows - 1) as nat)
    }
}

/// The candidates of the first `cols` columns, column after column.
pub open spec fn candidates_upto(img: RasterView, threshold: i32, cols: nat) -> Seq<Point>
    decreases cols,
{
    if cols == 0 {
        Seq::empty()
    } else {
        candidates_upto(img, threshold, (cols - 1) as nat) + column_candidates(
            img,
            threshold,
            cols - 1,
            img.height,
        )
    }
}

/// All candidates of the raster, column after column and each column from
/// the top down.
pub open spec fn candidates(img: RasterView, threshold: i32) -> Seq<Point> {
    candidates_upto(img, threshold, img.width)
}

/// How many points are drawn from `count` candidates: the given fraction
/// of them, rounded down, but no more than `max_points`.
pub open spec fn sample_limit(count: nat, numerator: nat, denominator: nat, max_points: nat) -> nat {
    let share = (count * numerator) / denominator;
    if share < max_points {
        share
    } else {
        max_points
    }
}

/// `p` is the position of a pixel of the raster.
pub open spec fn is_pixel(img: RasterView, p: Point) -> bool {
    img.in_bounds(p.x as int, p.y as int)
}

/// Every candidate of a column is a pixel of that column.
pub proof fn lemma_column_candidates_in_bounds(
    img: RasterView,
    threshold: i32,
    x: int,
    rows: nat,
    k: int,
)
    requires
        0 <= x < img.width,
        rows <= img.height,
        img.width <= u32::MAX,
        img.height <= u32::MAX,
        0 <= k < column_candidates(img, threshold, x, rows).len(),
    ensures
        is_pixel(img, column_candidates(img, threshold, x, rows)[k]),
        is_candidate(
            img,
            threshold,
            column_candidates(img, threshold, x, rows)[k].x as int,
            column_candidates(img, threshold, x, rows)[k].y as int,
        ),
    decreases rows,
{
    if rows > 0 {
        let rest = column_candidates(img, threshold, x, (rows - 1) as nat);
        if k < rest.len() {
            lemma_column_candidates_in_bounds(img, threshold, x, (rows - 1) as nat, k);
        }
    }
}

/// Every candidate is a pixel of the raster whose local mean is above the
/// threshold.
pub proof fn lemma_candidates_in_bounds(img: RasterView, threshold: i32, cols: nat, k: int)
    requires
        cols <= img.width,
        img.width <= u32::MAX,
        img.height <= u32::MAX,
        0 <= k < candidates_upto(img, threshold, cols).len(),
    ensures
        is_pixel(img, candidates_upto(img, threshold, cols)[k]),
        is_candidate(
            img,
            threshold,
            candidates_upto(img, threshold, cols)[k].x as int,
            candidates_upto(img, threshold, cols)[k].y as int,
        ),
    decreases cols,
{
    if cols > 0 {
        let rest = candidates_upto(img, threshold, (cols - 1) as nat);
        if k < rest.len() {
            lemma_candidates_in_bounds(img, threshold, (cols - 1) as nat, k);
        } else {
            lemma_column_candidates_in_bounds(img, threshold, cols - 1, img.height, k - rest.len());
        }
    }
}

/// The red channel and the count that the position `(x, y)` adds to a
/// local mean.
fn probe(image: &Raster, x: i64, y: i64) -> (r: (i32, i32))
    ensures
        r.0 == red_or_zero(image@, x as int, y as int),
        r.1 == one_or_zero(image@, x as int, y as int),
        0 <= r.0 <= 255 * r.1,
{
    let (width, height) = buffer_dimensions(image);
    if 0 <= x && x < width as i64 && 0 <= y && y < height as i64 {
        let px = buffer_get(image, x as u32, y as u32);
        (px[0] as i32, 1)
    } else {
        (0, 0)
    }
}

/// Sum and count over three pixels one above the other.
fn probe_column(image: &Raster, x: i64, y: i64) -> (r: (i32, i32))
    requires
        -1 <= y <= u32::MAX,
    ensures
        r.0 == column_sum(image@, x as int, y as int),
        r.1 == column_count(image@, x as int, y as int),
        0 <= r.0 <= 255 * r.1,
        0 <= r.1 <= 3,
{
    let above = probe(image, x, y - 1);
    let here = probe(image, x, y);
    let below = probe(image, x, y + 1);
    (above.0 + here.0 + below.0, above.1 + here.1 + below.1)
}

/// Sum and count of the red channel over the three by three window
/// around `(x, y)`, as far as it lies within the raster.
pub fn local_window(image: &Raster, x: u32, y: u32) -> (r: (i32, i32))
    ensures
        r.0 == local_sum(image@, x as int, y as int),
        r.1 == local_count(image@, x as int, y as int),
        0 <= r.0 <= 255 * r.1,
        0 <= r.1 <= 9,
{
    let left = probe_column(image, x as i64 - 1, y as i64);
    let mid = probe_column(image, x as i64, y as i64);
    let right = probe_column(image, x as i64 + 1, y as i64);
    (left.0 + mid.0 + right.0, left.1 + mid.1 + right.1)
}

/// Whether the pixel at `(x, y)` stands out: whether the mean of the red
/// channel around it is above the threshold.
pub fn stands_out(image: &Raster, threshold: i32, x: u32, y: u32) -> (b: bool)
    ensures
        b == is_candidate(image@, threshold, x as int, y as int),
{
    let (sum, total) = local_window(image, x, y);
    assert(-0x8000_0000 * 9 <= threshold * total <= 0x8000_0000 * 9) by (nonlinear_arith)
        requires
            -0x8000_0000 <= threshold <= 0x8000_0000,
            0 <= total <= 9,
    ;
    total > 0 && (sum as i64) > (threshold as i64) * (total as i64)
}

/// The mean of the red channel around `(x, y)`, rounded down.
pub fn local_mean(image: &Raster, x: u32, y: u32) -> (avg: i32)
    ensures
        avg == local_average(image@, x as int, y as int),
        0 <= avg <= 255,
{
    let (sum, total) = local_window(image, x, y);
    if total > 0 {
        proof {
            lemma_mean_bound(image@, x as int, y as int);
        }
        sum / total
    } else {
        0
    }
}

/// A mean of channel values is a channel value.
pub proof fn lemma_mean_bound(img: RasterView, x: int, y: int)
    ensures
        0 <= local_average(img, x, y) <= 255,
{
    let s = local_sum(img, x, y);
    let c = local_count(img, x, y);
    assert(0 <= s <= 255 * c);
    if c > 0 {
        assert(0 <= s / c <= 255) by (nonlinear_arith)
            requires
                0 <= s <= 255 * c,
                c > 0,
        ;
    }
}

/// The pixels that stand out, column after column and each column from
/// the top down.
pub fn find_candidates(image: &Raster, threshold: i32) -> (points: Vec<Point>)
    ensures
        points@ == candidates(image@, threshold),
{
    let (width, height) = buffer_dimensions(image);
    let ghost img = image@;
    let mut points: Vec<Point> = Vec::new();
    let mut x: u32 = 0;
    while x < width
        invariant
            0 <= x <= width,
            img == image@,
            width == img.width,
            height == img.height,
            points@ == candidates_upto(img, threshold, x as nat),
        decreases width - x,
    {
        let ghost before = points@;
        let mut y: u32 = 0;
        while y < height
            invariant
                0 <= x < width,
                0 <= y <= height,
                img == image@,
                width == img.width,
                height == img.height,
                before == candidates_upto(img, threshold, x as nat),
                points@ == before + column_candidates(img, threshold, x as int, y as nat),
            decreases height - y,
        {
            let ghost column = column_candidates(img, threshold, x as int, y as nat);
            if stands_out(image, threshold, x, y) {
                points.push(Point { x: x as i64, y: y as i64 });
                assert(points@ =~= before + column.push(Point { x: x as i64, y: y as i64 }));
            }
            y += 1;
        }
        x += 1;
    }
    points
}

/// `rand::thread_rng`: the random number generator of the current thread.
#[verifier::external_body]
pub(crate) fn thread_rng() -> rand::rngs::ThreadRng {
    rand::thread_rng()
}

/// `Rng::gen_range` over `0..n`: some index below `n`. It panics on an
/// empty range, which the precondition rules out.
#[verifier::external_body]
pub(crate) fn random_below(rng: &mut rand::rngs::ThreadRng, n: usize) -> (j: usize)
    requires
        n > 0,
    ensures
        j < n,
{
    rand::Rng::gen_range(rng, 0..n)
}

/// How many points to draw from `count` candidates.
pub fn sample_count(count: usize, numerator: u64, denominator: u64, max_points: usize) -> (limit:
    usize)
    requires
        denominator > 0,
    ensures
        limit == sample_limit(count as nat, numerator as nat, denominator as nat, max_points as nat),
        limit <= max_points,
        count == 0 ==> limit == 0,
{
    assert(count * numerator <= 0xffff_ffff_ffff_ffff * 0xffff_ffff_ffff_ffff) by (nonlinear_arith)
        requires
            0 <= count <= 0xffff_ffff_ffff_ffff,
            0 <= numerator <= 0xffff_ffff_ffff_ffff,
    ;
    assert(count == 0 ==> (count * numerator) / (denominator as int) == 0) by (nonlinear_arith)
        requires
            denominator > 0,
    ;
    let share: u128 = (count as u128) * (numerator as u128) / (denominator as u128);
    if share < max_points as u128 {
        share as usize
    } else {
        max_points
    }
}

/// Draws `limit` points from the candidates, each time any one of them:
/// a point may be drawn more than once.
pub fn draw_points(candidates: &Vec<Point>, limit: usize) -> (points: Vec<Point>)
    requires
        limit > 0 ==> candidates.len() > 0,
    ensures
        points.len() == limit,
        forall|i: int| 0 <= i < points.len() ==> candidates@.contains(#[trigger] points[i]),
{
    let mut rng = thread_rng();
    let mut points: Vec<Point> = Vec::new();
    let mut i: usize = 0;
    while i < limit
        invariant
            0 <= i <= limit,
            limit > 0 ==> candidates.len() > 0,
            points.len() == i,
            forall|k: int| 0 <= k < points.len() ==> candidates@.contains(#[trigger] points[k]),
        decreases limit - i,
    {
        let j = random_below(&mut rng, candidates.len());
        points.push(candidates[j]);
        i += 1;
    }
    points
}

/// The local sum, count and mean look at the pixels of the raster and at
/// nothing else, and so does the test for a pixel that stands out.
pub proof fn lemma_local_average_same(a: RasterView, b: RasterView, x: int, y: int)
    requires
        same_picture(a, b),
    ensures
        local_sum(a, x, y) == local_sum(b, x, y),
        local_count(a, x, y) == local_count(b, x, y),
        local_average(a, x, y) == local_average(b, x, y),
        forall|threshold: i32|
            is_candidate(a, threshold, x, y) == is_candidate(b, threshold, x, y),
{
    assert forall|i: int, j: int| red_or_zero(a, i, j) == red_or_zero(b, i, j) by {
        if a.in_bounds(i, j) {
            assert(a.pixels[(i, j)] == b.pixels[(i, j)]);
        }
    }
    assert forall|i: int, j: int| one_or_zero(a, i, j) == one_or_zero(b, i, j) by {}
    assert(column_sum(a, x - 1, y) == column_sum(b, x - 1, y));
    assert(column_sum(a, x, y) == column_sum(b, x, y));
    assert(column_sum(a, x + 1, y) == column_sum(b, x + 1, y));
    assert(column_count(a, x - 1, y) == column_count(b, x - 1, y));
    assert(column_count(a, x, y) == column_count(b, x, y));
    assert(column_count(a, x + 1, y) == column_count(b, x + 1, y));
}

/// The candidates of a column are a function of the picture.
pub proof fn lemma_column_candidates_same(
    a: RasterView,
    b: RasterView,
    threshold: i32,
    x: int,
    rows: nat,
)
    requires
        same_picture(a, b),
    ensures
        column_candidates(a, threshold, x, rows) == column_candidates(b, threshold, x, rows),
    decreases rows,
{
    if rows > 0 {
        lemma_column_candidates_same(a, b, threshold, x, (rows - 1) as nat);
        lemma_local_average_same(a, b, x, rows - 1);
    }
}

/// The candidates are a function of the picture: the same picture has the
/// same candidates, in the same order.
pub proof fn lemma_candidates_same(a: RasterView, b: RasterView, threshold: i32, cols: nat)
    requires
        same_picture(a, b),
    ensures
        candidates_upto(a, threshold, cols) == candidates_upto(b, threshold, cols),
    decreases cols,
{
    if cols > 0 {
        lemma_candidates_same(a, b, threshold, (cols - 1) as nat);
        lemma_column_candidates_same(a, b, threshold, cols - 1, a.height);
    }
}

} // verus!
