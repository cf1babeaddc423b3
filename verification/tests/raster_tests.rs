use lowpoly::raster::Raster;

#[test]
fn new_raster_is_all_zero() {
    let r = Raster::new(4, 2).unwrap();
    assert_eq!(r.dimensions(), (4, 2));
    assert_eq!(r.width(), 4);
    assert_eq!(r.height(), 2);
    for x in 0..4 {
        for y in 0..2 {
            assert_eq!(r.get_pixel(x, y), Some([0, 0, 0, 0]));
        }
    }
}

#[test]
fn raster_too_large_for_a_buffer() {
    assert!(Raster::new(u32::MAX, u32::MAX).is_none());
    assert!(Raster::new(0, u32::MAX).is_some());
    // a row of four channels for each pixel has to fit, also where there
    // is no row
    let row_fits = |width: u32| 4 * (width as u128) <= usize::MAX as u128;
    assert_eq!(Raster::new(u32::MAX, 0).is_some(), row_fits(u32::MAX));
    assert_eq!(Raster::new(0x4000_0000, 0).is_some(), row_fits(0x4000_0000));
    assert!(Raster::new(0x3fff_ffff, 0).is_some());
}

#[test]
fn get_pixel_outside_the_raster() {
    let r = Raster::new(4, 2).unwrap();
    assert_eq!(r.get_pixel(4, 0), None);
    assert_eq!(r.get_pixel(0, 2), None);
    assert_eq!(r.get_pixel(u32::MAX, u32::MAX), None);
    assert_eq!(Raster::new(0, 0).unwrap().get_pixel(0, 0), None);
}

#[test]
fn put_pixel_sets_one_pixel() {
    let mut r = Raster::new(3, 3).unwrap();
    assert!(r.put_pixel(2, 1, [1, 2, 3, 4]));
    assert_eq!(r.get_pixel(2, 1), Some([1, 2, 3, 4]));
    for x in 0..3 {
        for y in 0..3 {
            if (x, y) != (2, 1) {
                assert_eq!(r.get_pixel(x, y), Some([0, 0, 0, 0]));
            }
        }
    }
    assert!(r.put_pixel(2, 1, [9, 9, 9, 9]));
    assert_eq!(r.get_pixel(2, 1), Some([9, 9, 9, 9]));
    assert_eq!(r.dimensions(), (3, 3));
}

#[test]
fn put_pixel_outside_the_raster() {
    let mut r = Raster::new(3, 2).unwrap();
    assert!(!r.put_pixel(3, 0, [1, 2, 3, 4]));
    assert!(!r.put_pixel(0, 2, [1, 2, 3, 4]));
    for x in 0..3 {
        for y in 0..2 {
            assert_eq!(r.get_pixel(x, y), Some([0, 0, 0, 0]));
        }
    }
}

#[test]
fn x_runs_along_the_width() {
    let mut r = Raster::new(5, 2).unwrap();
    assert!(r.put_pixel(4, 1, [7, 7, 7, 7]));
    assert!(!r.put_pixel(1, 4, [7, 7, 7, 7]));
}
