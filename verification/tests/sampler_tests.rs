use image::{DynamicImage, GrayImage, Luma, Rgba, RgbaImage};
use lowpoly::filter::{blur_filter, sobel_filter};
use lowpoly::geometry::{GeometryError, Point, COORD_LIMIT};
use lowpoly::raster::Raster;
use lowpoly::sampler::{
    draw_points, find_candidates, local_mean, local_window, sample_count, stands_out,
};
use lowpoly::{Rate, Triangulation};
use rand::Rng;

fn pt(x: i64, y: i64) -> Point {
    Point { x, y }
}

fn uniform(width: u32, height: u32, red: u8) -> Raster {
    let mut image = Raster::new(width, height).unwrap();
    for x in 0..width {
        for y in 0..height {
            image.put_pixel(x, y, [red, 0, 0, 255]);
        }
    }
    image
}

#[test]
fn test_get_points() {
    // create a random image
    let mut rng = rand::thread_rng();
    let mut img = Raster::new(10, 10).unwrap();
    for x in 0..img.width() {
        for y in 0..img.height() {
            let pixel = [
                rng.gen_range(0..255) as u8,
                rng.gen_range(0..255) as u8,
                rng.gen_range(0..255) as u8,
                255,
            ];
            img.put_pixel(x, y, pixel);
        }
    }

    // Test with different thresholds and max_points values
    for &threshold in &[50, 100, 150] {
        for &max_points in &[5, 10, 20] {
            let triangulation = Triangulation {
                points_threshold: threshold,
                max_points: max_points as usize,
                ..Default::default()
            };
            let points = triangulation.get_points(&img);

            // Check that the number of returned points is within the expected range
            assert!(points.len() <= max_points);

            // Check all point are valid
            points.iter().for_each(|point| {
                assert!(point.x < (img.width() as i64));
                assert!(point.y < (img.height() as i64));
            })
        }
    }
}

#[test]
fn default_settings() {
    let t = Triangulation::default();
    assert_eq!(t.blur_factor, 1);
    assert_eq!(t.sobel_factor, 6);
    assert_eq!(t.max_points, 2500);
    assert_eq!(t.points_threshold, 10);
    assert_eq!((t.point_rate.numerator(), t.point_rate.denominator()), (3, 40));
    assert!(!t.grayscale);
}

#[test]
fn rate_wants_a_denominator() {
    assert!(Rate::new(1, 0).is_none());
    assert!(Rate::new(0, 0).is_none());
    let r = Rate::new(7, 9).unwrap();
    assert_eq!((r.numerator(), r.denominator()), (7, 9));
    let r = Rate::new(0, 1).unwrap();
    assert_eq!((r.numerator(), r.denominator()), (0, 1));
}

#[test]
fn sample_count_is_the_share_rounded_down() {
    assert_eq!(sample_count(100, 3, 40, 2500), 7);
    assert_eq!(sample_count(40, 3, 40, 2500), 3);
    assert_eq!(sample_count(13, 3, 40, 2500), 0);
    assert_eq!(sample_count(14, 3, 40, 2500), 1);
    assert_eq!(sample_count(0, 3, 40, 2500), 0);
    assert_eq!(sample_count(10, 1, 1, 2500), 10);
    assert_eq!(sample_count(10, 0, 1, 2500), 0);
}

#[test]
fn sample_count_is_capped() {
    assert_eq!(sample_count(100, 3, 40, 5), 5);
    assert_eq!(sample_count(100, 3, 40, 7), 7);
    assert_eq!(sample_count(100, 3, 40, 8), 7);
    assert_eq!(sample_count(100, 1, 1, 0), 0);
    // a rate above one asks for more points than there are candidates
    assert_eq!(sample_count(10, 5, 2, 2500), 25);
    assert_eq!(sample_count(usize::MAX, u64::MAX, 1, usize::MAX), usize::MAX);
    assert_eq!(sample_count(usize::MAX, u64::MAX, u64::MAX, usize::MAX), usize::MAX);
}

#[test]
fn local_mean_counts_only_pixels_of_the_raster() {
    let mut image = Raster::new(3, 3).unwrap();
    let mut red = 0u8;
    for y in 0..3 {
        for x in 0..3 {
            red += 10;
            image.put_pixel(x, y, [red, 0, 0, 0]);
        }
    }
    // 10 20 30 / 40 50 60 / 70 80 90
    assert_eq!(local_mean(&image, 1, 1), 50);
    // corner: (10 + 20 + 40 + 50) / 4
    assert_eq!(local_mean(&image, 0, 0), 30);
    // side: (10 + 20 + 30 + 40 + 50 + 60) / 6
    assert_eq!(local_mean(&image, 1, 0), 35);
    // (50 + 60 + 80 + 90) / 4
    assert_eq!(local_mean(&image, 2, 2), 70);
    let one = uniform(1, 1, 77);
    assert_eq!(local_mean(&one, 0, 0), 77);
}

#[test]
fn local_mean_rounds_down() {
    let mut image = Raster::new(2, 1).unwrap();
    image.put_pixel(0, 0, [3, 0, 0, 0]);
    image.put_pixel(1, 0, [4, 0, 0, 0]);
    assert_eq!(local_mean(&image, 0, 0), 3);
    let mut image = Raster::new(3, 3).unwrap();
    image.put_pixel(1, 1, [255, 0, 0, 0]);
    // 255 / 9 = 28.3..
    assert_eq!(local_mean(&image, 1, 1), 28);
    // 255 / 4 = 63.75
    assert_eq!(local_mean(&image, 0, 0), 63);
}

#[test]
fn candidates_come_column_by_column() {
    let image = uniform(2, 3, 100);
    assert_eq!(
        find_candidates(&image, 99),
        vec![pt(0, 0), pt(0, 1), pt(0, 2), pt(1, 0), pt(1, 1), pt(1, 2)]
    );
}

#[test]
fn candidates_are_strictly_above_the_threshold() {
    let image = uniform(4, 4, 100);
    assert_eq!(find_candidates(&image, 100).len(), 0);
    assert_eq!(find_candidates(&image, 99).len(), 16);
    assert_eq!(find_candidates(&image, -1).len(), 16);
    assert_eq!(find_candidates(&image, i32::MAX).len(), 0);
    let dark = uniform(4, 4, 0);
    assert_eq!(find_candidates(&dark, 0).len(), 0);
    assert_eq!(find_candidates(&dark, -1).len(), 16);
}

#[test]
fn candidates_of_a_single_bright_pixel() {
    let mut image = Raster::new(5, 5).unwrap();
    image.put_pixel(0, 0, [200, 0, 0, 0]);
    // the mean is 50 at (0,0), 33 at (1,0) and (0,1), 22 at (1,1)
    assert_eq!(find_candidates(&image, 40), vec![pt(0, 0)]);
    assert_eq!(find_candidates(&image, 30), vec![pt(0, 0), pt(0, 1), pt(1, 0)]);
    assert_eq!(find_candidates(&image, 21), vec![pt(0, 0), pt(0, 1), pt(1, 0), pt(1, 1)]);
}

#[test]
fn candidates_of_an_empty_raster() {
    let image = Raster::new(0, 0).unwrap();
    assert_eq!(find_candidates(&image, -1).len(), 0);
    let image = Raster::new(5, 0).unwrap();
    assert_eq!(find_candidates(&image, -1).len(), 0);
}

#[test]
fn drawn_points_are_candidates() {
    let candidates = vec![pt(1, 2), pt(3, 4), pt(5, 6)];
    let drawn = draw_points(&candidates, 50);
    assert_eq!(drawn.len(), 50);
    for p in &drawn {
        assert!(candidates.contains(p));
    }
    assert_eq!(draw_points(&candidates, 0).len(), 0);
    assert_eq!(draw_points(&vec![], 0).len(), 0);
    // from one candidate only that one can be drawn
    assert_eq!(draw_points(&vec![pt(9, 9)], 3), vec![pt(9, 9), pt(9, 9), pt(9, 9)]);
}

#[test]
fn get_points_draws_the_asked_number() {
    let image = uniform(10, 10, 100);
    let t = Triangulation { points_threshold: 50, ..Default::default() };
    // 100 candidates, three in forty of them
    assert_eq!(t.get_points(&image).len(), 7);
    let t = Triangulation { points_threshold: 50, max_points: 4, ..Default::default() };
    assert_eq!(t.get_points(&image).len(), 4);
    let t = Triangulation {
        points_threshold: 50,
        point_rate: Rate::new(1, 1).unwrap(),
        ..Default::default()
    };
    let points = t.get_points(&image);
    assert_eq!(points.len(), 100);
    for p in points {
        assert!(0 <= p.x && p.x < 10 && 0 <= p.y && p.y < 10);
    }
}

#[test]
fn get_points_without_candidates() {
    let image = uniform(10, 10, 100);
    let t = Triangulation { points_threshold: 255, ..Default::default() };
    assert_eq!(t.get_points(&image).len(), 0);
    let t = Triangulation {
        points_threshold: 100,
        point_rate: Rate::new(1, 1).unwrap(),
        ..Default::default()
    };
    assert_eq!(t.get_points(&image).len(), 0);
}

#[test]
fn pipeline_without_candidates_gives_no_triangle() {
    // threshold above any mean a channel can have
    let image = uniform(12, 9, 200);
    let t = Triangulation { points_threshold: 255, ..Default::default() };
    assert_eq!(t.triangulate(&image).unwrap().len(), 0);
    // a raster without pixels
    let none = Raster::new(0, 0).unwrap();
    assert_eq!(Triangulation::default().triangulate(&none).unwrap().len(), 0);
}

#[test]
fn pipeline_on_a_bright_square() {
    // a bright square on black: its outline stands out after the edge filter
    let mut image = Raster::new(40, 40).unwrap();
    for x in 0..40u32 {
        for y in 0..40u32 {
            let inside = (10..30).contains(&x) && (10..30).contains(&y);
            image.put_pixel(x, y, [if inside { 255 } else { 0 }, 0, 0, 255]);
        }
    }
    let t = Triangulation {
        sobel_factor: 1,
        point_rate: Rate::new(1, 2).unwrap(),
        max_points: 30,
        ..Default::default()
    };
    let triangles = t.triangulate(&image).unwrap();
    assert!(triangles.len() >= 2);
    for tri in &triangles {
        for v in tri.vertex() {
            assert!(0 <= v.x && v.x <= 40 && 0 <= v.y && v.y <= 40);
        }
    }
    // the source raster is not touched
    assert_eq!(image.get_pixel(15, 15), Some([255, 0, 0, 255]));
    assert_eq!(image.get_pixel(5, 5), Some([0, 0, 0, 255]));
}

#[test]
fn raster_too_wide_for_a_mesh() {
    let wide = Raster::new(COORD_LIMIT as u32 + 1, 0).unwrap();
    assert_eq!(
        Triangulation::default().triangulate(&wide).err(),
        Some(GeometryError::OutOfRange)
    );
    let tall = Raster::new(0, COORD_LIMIT as u32 + 1).unwrap();
    assert_eq!(
        Triangulation::default().triangulate(&tall).err(),
        Some(GeometryError::OutOfRange)
    );
    let edge = Raster::new(COORD_LIMIT as u32, 0).unwrap();
    assert!(Triangulation::default().triangulate(&edge).is_ok());
}

#[test]
fn generate_triangle_returns_the_colour_raster() {
    let mut source = RgbaImage::new(6, 4);
    for x in 0..6u32 {
        for y in 0..4u32 {
            source.put_pixel(x, y, Rgba([(x * 40) as u8, (y * 60) as u8, 7, 200]));
        }
    }
    let t = Triangulation { points_threshold: 255, ..Default::default() };
    let (triangles, raster) = t.generate_triangle(DynamicImage::ImageRgba8(source)).unwrap();
    assert_eq!(triangles.len(), 0);
    assert_eq!(raster.dimensions(), (6, 4));
    for x in 0..6u32 {
        for y in 0..4u32 {
            assert_eq!(raster.get_pixel(x, y), Some([(x * 40) as u8, (y * 60) as u8, 7, 200]));
        }
    }
}

#[test]
fn generate_triangle_widens_to_four_channels() {
    let mut source = GrayImage::new(3, 2);
    source.put_pixel(0, 0, Luma([10]));
    source.put_pixel(2, 1, Luma([250]));
    let t = Triangulation { points_threshold: 255, ..Default::default() };
    let (_, raster) = t.generate_triangle(DynamicImage::ImageLuma8(source)).unwrap();
    assert_eq!(raster.dimensions(), (3, 2));
    assert_eq!(raster.get_pixel(0, 0), Some([10, 10, 10, 255]));
    assert_eq!(raster.get_pixel(2, 1), Some([250, 250, 250, 255]));
    assert_eq!(raster.get_pixel(1, 1), Some([0, 0, 0, 255]));
}

#[test]
fn generate_triangle_in_gray() {
    let mut source = RgbaImage::new(2, 2);
    source.put_pixel(0, 0, Rgba([255, 0, 0, 255]));
    source.put_pixel(1, 0, Rgba([0, 255, 0, 128]));
    source.put_pixel(0, 1, Rgba([255, 255, 255, 255]));
    source.put_pixel(1, 1, Rgba([0, 0, 0, 0]));
    let t = Triangulation { points_threshold: 255, grayscale: true, ..Default::default() };
    let (_, raster) = t.generate_triangle(DynamicImage::ImageRgba8(source)).unwrap();
    assert_eq!(raster.dimensions(), (2, 2));
    for x in 0..2u32 {
        for y in 0..2u32 {
            let px = raster.get_pixel(x, y).unwrap();
            assert_eq!(px[0], px[1]);
            assert_eq!(px[1], px[2]);
        }
    }
    // red is no longer pure red, white stays white, alpha is kept
    let red = raster.get_pixel(0, 0).unwrap();
    assert!(0 < red[0] && red[0] < 255);
    assert_eq!(raster.get_pixel(0, 1), Some([255, 255, 255, 255]));
    assert_eq!(raster.get_pixel(1, 0).unwrap()[3], 128);
    assert_eq!(raster.get_pixel(1, 1), Some([0, 0, 0, 0]));
}

#[test]
fn generate_triangle_with_points() {
    let mut source = RgbaImage::new(30, 30);
    for x in 0..30u32 {
        for y in 0..30u32 {
            let inside = (10..20).contains(&x) && (10..20).contains(&y);
            source.put_pixel(x, y, Rgba([if inside { 255 } else { 0 }, 9, 9, 255]));
        }
    }
    let t = Triangulation {
        sobel_factor: 1,
        point_rate: Rate::new(1, 2).unwrap(),
        max_points: 20,
        ..Default::default()
    };
    let (triangles, raster) = t.generate_triangle(DynamicImage::ImageRgba8(source)).unwrap();
    assert!(triangles.len() >= 2);
    assert_eq!(raster.get_pixel(12, 12), Some([255, 9, 9, 255]));
}

#[test]
fn stages_before_the_draw_repeat_themselves() {
    let mut image = Raster::new(25, 20).unwrap();
    for x in 0..25u32 {
        for y in 0..20u32 {
            image.put_pixel(x, y, [((x * x + 3 * y) % 256) as u8, 0, 0, 255]);
        }
    }
    let run = |image: &Raster| {
        let blurred = blur_filter(image, 1);
        let edges = sobel_filter(&blurred, 2);
        find_candidates(&edges, 10)
    };
    let first = run(&image);
    let second = run(&image);
    assert!(!first.is_empty());
    assert_eq!(first, second);
}

#[test]
fn triangles_of_a_run_lie_in_the_picture() {
    let mut image = Raster::new(32, 24).unwrap();
    for x in 0..32u32 {
        for y in 0..24u32 {
            let bright = (x / 8 + y / 8) % 2 == 0;
            image.put_pixel(x, y, [if bright { 250 } else { 5 }, 1, 2, 255]);
        }
    }
    let t = Triangulation {
        sobel_factor: 1,
        points_threshold: 5,
        point_rate: Rate::new(1, 1).unwrap(),
        max_points: 60,
        ..Default::default()
    };
    let triangles = t.triangulate(&image).unwrap();
    assert!(triangles.len() >= 2);
    for tri in &triangles {
        for v in tri.vertex() {
            assert!(0 <= v.x && v.x <= 32 && 0 <= v.y && v.y <= 24);
        }
        assert!(lowpoly::drawer::fill_color(&image, tri).is_some());
    }
}

#[test]
fn a_mean_between_two_numbers_is_above_the_lower() {
    // both pixels see both pixels: the mean is 10.5
    let mut image = Raster::new(2, 1).unwrap();
    image.put_pixel(0, 0, [10, 0, 0, 255]);
    image.put_pixel(1, 0, [11, 0, 0, 255]);
    assert_eq!(local_window(&image, 0, 0), (21, 2));
    assert_eq!(local_mean(&image, 0, 0), 10);
    assert!(stands_out(&image, 10, 0, 0));
    assert!(stands_out(&image, 10, 1, 0));
    assert!(!stands_out(&image, 11, 0, 0));
    assert_eq!(find_candidates(&image, 10), vec![pt(0, 0), pt(1, 0)]);
    assert_eq!(find_candidates(&image, 11).len(), 0);
    let t = Triangulation {
        points_threshold: 10,
        point_rate: Rate::new(1, 1).unwrap(),
        max_points: 2,
        ..Default::default()
    };
    let points = t.get_points(&image);
    assert_eq!(points.len(), 2);
    for p in points {
        assert!(p == pt(0, 0) || p == pt(1, 0));
    }
}

#[test]
fn the_exact_mean_is_compared() {
    let mut image = Raster::new(5, 5).unwrap();
    image.put_pixel(0, 0, [200, 0, 0, 0]);
    // the mean is 50 at (0,0), 33.3 at (1,0) and (0,1), 22.2 at (1,1)
    assert_eq!(find_candidates(&image, 33), vec![pt(0, 0), pt(0, 1), pt(1, 0)]);
    assert_eq!(find_candidates(&image, 34), vec![pt(0, 0)]);
    assert_eq!(find_candidates(&image, 22), vec![pt(0, 0), pt(0, 1), pt(1, 0), pt(1, 1)]);
    assert_eq!(find_candidates(&image, 23), vec![pt(0, 0), pt(0, 1), pt(1, 0)]);
    assert_eq!(find_candidates(&image, 49), vec![pt(0, 0)]);
    assert_eq!(find_candidates(&image, 50).len(), 0);
}

#[test]
fn local_window_sum_and_count() {
    let mut image = Raster::new(3, 3).unwrap();
    let mut red = 0u8;
    for y in 0..3 {
        for x in 0..3 {
            red += 10;
            image.put_pixel(x, y, [red, 0, 0, 0]);
        }
    }
    assert_eq!(local_window(&image, 1, 1), (450, 9));
    assert_eq!(local_window(&image, 0, 0), (120, 4));
    assert_eq!(local_window(&image, 1, 0), (210, 6));
    assert_eq!(local_window(&image, 2, 2), (280, 4));
    assert_eq!(local_window(&uniform(1, 1, 255), 0, 0), (255, 1));
    assert_eq!(local_window(&uniform(3, 3, 255), 1, 1), (2295, 9));
}

#[test]
fn stands_out_at_the_ends_of_the_threshold() {
    let bright = uniform(3, 3, 255);
    assert!(stands_out(&bright, 254, 1, 1));
    assert!(!stands_out(&bright, 255, 1, 1));
    assert!(stands_out(&bright, i32::MIN, 1, 1));
    assert!(!stands_out(&bright, i32::MAX, 1, 1));
    let dark = uniform(3, 3, 0);
    assert!(!stands_out(&dark, 0, 0, 0));
    assert!(stands_out(&dark, -1, 0, 0));
}
