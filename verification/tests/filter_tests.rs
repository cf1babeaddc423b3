use lowpoly::filter::{blur_filter, blur_kernel, clamp_color, convole, sobel_filter, sobel_kernel};
use lowpoly::kernel::{radius_fits, Kernel};
use lowpoly::raster::Raster;

fn generate_test_image() -> Raster {
    let mut image = Raster::new(3, 3).unwrap();
    image.put_pixel(0, 0, [255, 255, 255, 255]);
    image.put_pixel(1, 0, [0, 0, 0, 255]);
    image.put_pixel(2, 0, [255, 255, 255, 255]);
    image.put_pixel(0, 1, [255, 0, 0, 255]);
    image.put_pixel(1, 1, [255, 0, 0, 255]);
    image.put_pixel(2, 1, [255, 0, 0, 255]);
    image.put_pixel(0, 2, [255, 255, 255, 255]);
    image.put_pixel(1, 2, [0, 0, 0, 255]);
    image.put_pixel(2, 2, [255, 255, 255, 255]);

    image
}

fn uniform(width: u32, height: u32, px: [u8; 4]) -> Raster {
    let mut image = Raster::new(width, height).unwrap();
    for x in 0..width {
        for y in 0..height {
            assert!(image.put_pixel(x, y, px));
        }
    }
    image
}

#[test]
fn test_convole() {
    // generate a test image
    let image = generate_test_image();

    // create a test kernel
    let kernel = Kernel::new(vec![0, -1, 0, -1, 5, -1, 0, -1, 0], 1).unwrap();

    // apply the convolution
    let result = convole(&image, kernel);

    // check pixel
    assert_eq!(result.get_pixel(0, 0), Some([255, 255, 255, 255]));
    assert_eq!(result.get_pixel(1, 0), Some([0, 0, 0, 255]));
    assert_eq!(result.get_pixel(2, 0), Some([255, 255, 255, 255]));
    assert_eq!(result.get_pixel(0, 1), Some([255, 0, 0, 255]));
    assert_eq!(result.get_pixel(1, 1), Some([255, 0, 0, 255]));
    assert_eq!(result.get_pixel(2, 1), Some([255, 0, 0, 255]));
    assert_eq!(result.get_pixel(0, 2), Some([255, 255, 255, 255]));
    assert_eq!(result.get_pixel(1, 2), Some([0, 0, 0, 255]));
}

#[test]
fn test_blur_filter() {
    // generate a test image
    let image = generate_test_image();

    // apply the blurred filter
    let blurred_image = blur_filter(&image, 1);

    // check the dimensions
    assert_eq!(image.width(), blurred_image.width());
    assert_eq!(image.height(), blurred_image.height());
}

#[test]
fn test_sobel_filter() {
    // generate a test image
    let image = generate_test_image();

    // apply the blurred filter
    let filtered_image = sobel_filter(&image, 3);

    // check the dimensions
    assert_eq!(image.width(), filtered_image.width());
    assert_eq!(image.height(), filtered_image.height());
}

#[test]
fn test_perroquet() {
    // a picture of many colours, made here
    let mut image = Raster::new(40, 30).unwrap();
    for x in 0..40u32 {
        for y in 0..30u32 {
            let px = [(x * 6) as u8, (y * 8) as u8, ((x + y) * 3) as u8, 255];
            image.put_pixel(x, y, px);
        }
    }

    // apply the edge filter
    let filtered_image = sobel_filter(&image, 6);

    // check the dimensions
    assert_eq!(image.width(), filtered_image.width());
    assert_eq!(image.height(), filtered_image.height());
}

#[test]
fn convolution_keeps_the_source() {
    let image = generate_test_image();
    let kernel = Kernel::new(vec![0, -1, 0, -1, 5, -1, 0, -1, 0], 1).unwrap();
    let _ = convole(&image, kernel);
    assert_eq!(image.get_pixel(1, 0), Some([0, 0, 0, 255]));
    assert_eq!(image.get_pixel(1, 1), Some([255, 0, 0, 255]));
}

#[test]
fn identity_kernel_keeps_red() {
    let mut image = Raster::new(4, 3).unwrap();
    for x in 0..4u32 {
        for y in 0..3u32 {
            image.put_pixel(x, y, [(x * 50 + y * 7) as u8, 1, 2, 3]);
        }
    }
    for kernel in [
        Kernel::new(vec![1], 1).unwrap(),
        Kernel::new(vec![0, 0, 0, 0, 1, 0, 0, 0, 0], 1).unwrap(),
        Kernel::new(vec![0, 0, 0, 0, 7, 0, 0, 0, 0], 7).unwrap(),
    ] {
        let out = convole(&image, kernel);
        for x in 0..4u32 {
            for y in 0..3u32 {
                assert_eq!(out.get_pixel(x, y), Some([(x * 50 + y * 7) as u8, 1, 2, 3]));
            }
        }
    }
}

#[test]
fn zero_sum_kernel_on_uniform_raster() {
    let image = uniform(5, 5, [200, 10, 20, 30]);
    let kernel = Kernel::new(vec![0, -1, 0, -1, 4, -1, 0, -1, 0], 1).unwrap();
    let out = convole(&image, kernel);
    // away from the border the whole window counts and the sum is zero
    for x in 1..4u32 {
        for y in 1..4u32 {
            assert_eq!(out.get_pixel(x, y), Some([0, 10, 20, 30]));
        }
    }
    // at the border part of the window hangs over the edge and what is
    // left of the kernel does not sum to zero
    assert_eq!(out.get_pixel(0, 0), Some([255, 10, 20, 30]));
    assert_eq!(out.get_pixel(2, 0), Some([200, 10, 20, 30]));
}

#[test]
fn kernel_cells_are_read_row_by_row() {
    // weight only on the cell to the right of the centre
    let mut image = Raster::new(3, 1).unwrap();
    image.put_pixel(0, 0, [10, 0, 0, 0]);
    image.put_pixel(1, 0, [20, 0, 0, 0]);
    image.put_pixel(2, 0, [30, 0, 0, 0]);
    let right = Kernel::new(vec![0, 0, 0, 0, 0, 1, 0, 0, 0], 1).unwrap();
    let out = convole(&image, right);
    assert_eq!(out.get_pixel(0, 0), Some([20, 0, 0, 0]));
    assert_eq!(out.get_pixel(1, 0), Some([30, 0, 0, 0]));
    assert_eq!(out.get_pixel(2, 0), Some([0, 0, 0, 0]));
    // weight only on the cell below the centre
    let mut tall = Raster::new(1, 3).unwrap();
    tall.put_pixel(0, 0, [10, 0, 0, 0]);
    tall.put_pixel(0, 1, [20, 0, 0, 0]);
    tall.put_pixel(0, 2, [30, 0, 0, 0]);
    let below = Kernel::new(vec![0, 0, 0, 0, 0, 0, 0, 1, 0], 1).unwrap();
    let out = convole(&tall, below);
    assert_eq!(out.get_pixel(0, 0), Some([20, 0, 0, 0]));
    assert_eq!(out.get_pixel(0, 1), Some([30, 0, 0, 0]));
    assert_eq!(out.get_pixel(0, 2), Some([0, 0, 0, 0]));
}

#[test]
fn blur_is_the_mean_with_zero_beyond_the_edge() {
    let image = uniform(3, 3, [90, 1, 2, 3]);
    let out = blur_filter(&image, 1);
    // centre: nine cells of 90 over nine
    assert_eq!(out.get_pixel(1, 1), Some([90, 1, 2, 3]));
    // side: six cells of 90 over nine
    assert_eq!(out.get_pixel(1, 0), Some([60, 1, 2, 3]));
    // corner: four cells of 90 over nine
    assert_eq!(out.get_pixel(0, 0), Some([40, 1, 2, 3]));
    assert_eq!(out.get_pixel(2, 2), Some([40, 1, 2, 3]));
}

#[test]
fn blur_rounds_down() {
    let mut image = Raster::new(3, 3).unwrap();
    image.put_pixel(1, 1, [100, 0, 0, 0]);
    let out = blur_filter(&image, 1);
    // 100 / 9 = 11.1..
    for x in 0..3u32 {
        for y in 0..3u32 {
            assert_eq!(out.get_pixel(x, y), Some([11, 0, 0, 0]));
        }
    }
    let mut image = Raster::new(3, 3).unwrap();
    image.put_pixel(1, 1, [8, 0, 0, 0]);
    let out = blur_filter(&image, 1);
    assert_eq!(out.get_pixel(1, 1), Some([0, 0, 0, 0]));
}

#[test]
fn blur_of_radius_zero_is_the_identity() {
    let image = generate_test_image();
    let out = blur_filter(&image, 0);
    for x in 0..3u32 {
        for y in 0..3u32 {
            assert_eq!(out.get_pixel(x, y), image.get_pixel(x, y));
        }
    }
}

#[test]
fn edge_filter_values() {
    // radius 1: every cell 1/3, the centre -3
    let mut image = Raster::new(3, 3).unwrap();
    for x in 0..3u32 {
        for y in 0..3u32 {
            image.put_pixel(x, y, [90, 5, 6, 7]);
        }
    }
    image.put_pixel(1, 1, [0, 5, 6, 7]);
    let out = sobel_filter(&image, 1);
    // centre: eight cells of 90 over three, and nothing from itself
    assert_eq!(out.get_pixel(1, 1), Some([240, 5, 6, 7]));
    // corner: (0,1) and (1,0) at a third each, less three times 90
    assert_eq!(out.get_pixel(0, 0), Some([0, 5, 6, 7]));
    let mut image = Raster::new(3, 3).unwrap();
    for x in 0..3u32 {
        for y in 0..3u32 {
            image.put_pixel(x, y, [200, 0, 0, 0]);
        }
    }
    image.put_pixel(1, 1, [10, 0, 0, 0]);
    let out = sobel_filter(&image, 1);
    // 8 * 200 / 3 - 3 * 10 = 503.3.. is clamped
    assert_eq!(out.get_pixel(1, 1), Some([255, 0, 0, 0]));
    let mut image = Raster::new(3, 3).unwrap();
    image.put_pixel(0, 0, [100, 0, 0, 0]);
    image.put_pixel(1, 1, [10, 0, 0, 0]);
    let out = sobel_filter(&image, 1);
    // 100 / 3 - 30 = 3.3..
    assert_eq!(out.get_pixel(1, 1), Some([3, 0, 0, 0]));
}

#[test]
fn edge_filter_of_radius_zero_wipes_red() {
    // a single cell of weight -1
    let image = generate_test_image();
    let out = sobel_filter(&image, 0);
    assert_eq!(out.get_pixel(0, 0), Some([0, 255, 255, 255]));
    assert_eq!(out.get_pixel(1, 1), Some([0, 0, 0, 255]));
}

#[test]
fn filters_on_an_empty_raster() {
    let image = Raster::new(0, 0).unwrap();
    let out = blur_filter(&image, 2);
    assert_eq!(out.dimensions(), (0, 0));
    let image = Raster::new(0, 5).unwrap();
    let out = sobel_filter(&image, 2);
    assert_eq!(out.dimensions(), (0, 5));
}

#[test]
fn clamp_color_values() {
    assert_eq!(clamp_color(-1, 1), 0);
    assert_eq!(clamp_color(0, 1), 0);
    assert_eq!(clamp_color(255, 1), 255);
    assert_eq!(clamp_color(256, 1), 255);
    assert_eq!(clamp_color(17, 1), 17);
    assert_eq!(clamp_color(100, 9), 11);
    assert_eq!(clamp_color(8, 9), 0);
    assert_eq!(clamp_color(255 * 9, 9), 255);
    assert_eq!(clamp_color(255 * 9 - 1, 9), 254);
    assert_eq!(clamp_color(255 * 9 + 1, 9), 255);
    assert_eq!(clamp_color(i128::MAX, 1), 255);
    assert_eq!(clamp_color(i128::MIN, i64::MAX), 0);
}

#[test]
fn kernel_new_accepts_odd_squares_only() {
    assert!(Kernel::new(vec![1], 1).is_some());
    assert!(Kernel::new(vec![1; 9], 1).is_some());
    assert!(Kernel::new(vec![1; 25], 3).is_some());
    assert!(Kernel::new(vec![], 1).is_none());
    assert!(Kernel::new(vec![1; 4], 1).is_none());
    assert!(Kernel::new(vec![1; 8], 1).is_none());
    assert!(Kernel::new(vec![1; 10], 1).is_none());
    assert!(Kernel::new(vec![1; 16], 1).is_none());
}

#[test]
fn kernel_new_wants_a_positive_divisor() {
    assert!(Kernel::new(vec![1; 9], 0).is_none());
    assert!(Kernel::new(vec![1; 9], -1).is_none());
    assert!(Kernel::new(vec![1; 9], i64::MAX).is_some());
}

#[test]
fn kernel_new_bounds_the_mass() {
    // nine weights of 2^63 - 1 are well below the bound of 2^100
    assert!(Kernel::new(vec![i64::MAX; 9], 1).is_some());
    assert!(Kernel::new(vec![i64::MIN; 9], 1).is_some());
}

#[test]
fn kernel_accessors() {
    let k = Kernel::new(vec![0, -1, 0, -1, 5, -1, 0, -1, 0], 2).unwrap();
    assert_eq!(k.radius(), 1);
    assert_eq!(k.divisor(), 2);
    assert_eq!(k.len(), 9);
    assert_eq!(k.weight(4), 5);
    assert_eq!(k.weight(1), -1);
    let k = Kernel::new(vec![3; 49], 1).unwrap();
    assert_eq!(k.radius(), 3);
}

#[test]
fn blur_kernel_weights() {
    let k = blur_kernel(2);
    assert_eq!(k.radius(), 2);
    assert_eq!(k.len(), 25);
    assert_eq!(k.divisor(), 25);
    for i in 0..25 {
        assert_eq!(k.weight(i), 1);
    }
    let k = blur_kernel(0);
    assert_eq!((k.radius(), k.len(), k.divisor(), k.weight(0)), (0, 1, 1, 1));
}

#[test]
fn sobel_kernel_weights() {
    let k = sobel_kernel(1);
    assert_eq!(k.radius(), 1);
    assert_eq!(k.len(), 9);
    assert_eq!(k.divisor(), 3);
    for i in 0..9 {
        assert_eq!(k.weight(i), if i == 4 { -9 } else { 1 });
    }
    let k = sobel_kernel(6);
    assert_eq!((k.len(), k.divisor(), k.weight(84), k.weight(83)), (169, 13, -169, 1));
    let k = sobel_kernel(0);
    assert_eq!((k.len(), k.divisor(), k.weight(0)), (1, 1, -1));
}

#[test]
fn radius_fits_for_windows_that_can_be_stored() {
    assert!(radius_fits(0));
    assert!(radius_fits(6));
    assert!(radius_fits(10_000));
    assert!(!radius_fits(usize::MAX));
    assert!(!radius_fits(usize::MAX / 2));
}
