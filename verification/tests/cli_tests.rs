use lowpoly::cli::{color_from_hex, format_error, format_success, mark_line};
use lowpoly::drawer::{fill_color, Color, DrawingError};
use lowpoly::geometry::Point;
use lowpoly::raster::Raster;
use lowpoly::triangle::Triangle;

fn rgb(red: u8, green: u8, blue: u8) -> Result<Color, String> {
    Ok(Color { red, green, blue })
}

fn invalid() -> Result<Color, String> {
    Err(String::from("invalid hex color !"))
}

#[test]
fn hex_colours() {
    assert_eq!(color_from_hex("#ff8800"), rgb(255, 136, 0));
    assert_eq!(color_from_hex("ff8800"), rgb(255, 136, 0));
    assert_eq!(color_from_hex("#000000"), rgb(0, 0, 0));
    assert_eq!(color_from_hex("#FFFFFF"), rgb(255, 255, 255));
    assert_eq!(color_from_hex("#aBcDeF"), rgb(0xab, 0xcd, 0xef));
    assert_eq!(color_from_hex("#0a1b2c"), rgb(10, 27, 44));
    assert_eq!(color_from_hex("#123456"), rgb(0x12, 0x34, 0x56));
    assert_eq!(color_from_hex("#789a09"), rgb(0x78, 0x9a, 0x09));
}

#[test]
fn hex_colour_after_several_signs() {
    assert_eq!(color_from_hex("###102030"), rgb(16, 32, 48));
}

#[test]
fn hex_colour_with_more_behind_it() {
    assert_eq!(color_from_hex("#102030ff"), rgb(16, 32, 48));
    assert_eq!(color_from_hex("#102030 and so on"), rgb(16, 32, 48));
}

#[test]
fn hex_colour_with_plus_signs() {
    assert_eq!(color_from_hex("#+f+a+0"), rgb(15, 10, 0));
    assert_eq!(color_from_hex("#++0000"), invalid());
    assert_eq!(color_from_hex("#0+0000"), invalid());
}

#[test]
fn hex_colour_too_short() {
    assert_eq!(color_from_hex(""), invalid());
    assert_eq!(color_from_hex("#"), invalid());
    assert_eq!(color_from_hex("#fff"), invalid());
    assert_eq!(color_from_hex("#12345"), invalid());
    assert_eq!(color_from_hex("######"), invalid());
}

#[test]
fn hex_colour_with_other_characters() {
    assert_eq!(color_from_hex("#gg0000"), invalid());
    assert_eq!(color_from_hex("#00000g"), invalid());
    assert_eq!(color_from_hex("#-10000"), invalid());
    assert_eq!(color_from_hex("#12 456"), invalid());
    assert_eq!(color_from_hex("12#456"), invalid());
    assert_eq!(color_from_hex("#ff88\u{e9}0"), invalid());
    assert_eq!(color_from_hex("#@@@@@@"), invalid());
    assert_eq!(color_from_hex("#``````"), invalid());
    assert_eq!(color_from_hex("#//::GG"), invalid());
}

#[test]
fn mark_line_joins_with_a_space() {
    assert_eq!(mark_line(String::from("x"), "done"), "x done");
    assert_eq!(mark_line(String::new(), ""), " ");
    assert_eq!(mark_line(String::from("\u{2714}"), "a b"), "\u{2714} a b");
}

#[test]
fn format_error_ends_with_the_message() {
    let line = format_error("could not open input image");
    assert!(line.ends_with(" could not open input image"));
    assert!(line.contains('\u{2718}'));
    assert!(format_error("").ends_with(' '));
}

#[test]
fn format_success_ends_with_the_message() {
    let line = format_success("done (delaunay image is saved)");
    assert!(line.ends_with(" done (delaunay image is saved)"));
    assert!(line.contains('\u{2714}'));
}

#[test]
fn drawing_errors_can_be_told_apart() {
    assert_eq!(format!("{:?}", DrawingError::Encoding), "Encoding");
    assert_eq!(format!("{:?}", DrawingError::Rendering), "Rendering");
}

fn tri(a: (i64, i64), b: (i64, i64), c: (i64, i64)) -> Triangle {
    Triangle::new(
        Point { x: a.0, y: a.1 },
        Point { x: b.0, y: b.1 },
        Point { x: c.0, y: c.1 },
    )
    .unwrap()
}

#[test]
fn fill_colour_is_that_under_the_centroid() {
    let mut image = Raster::new(4, 4).unwrap();
    for x in 0..4u32 {
        for y in 0..4u32 {
            image.put_pixel(x, y, [(x * 10) as u8, (y * 10) as u8, (x + y) as u8, 99]);
        }
    }
    // centroid (1, 1)
    assert_eq!(
        fill_color(&image, &tri((0, 0), (3, 0), (0, 3))),
        Some(Color { red: 10, green: 10, blue: 2 })
    );
    // centroid (8/3, 4/3), rounded down to (2, 1)
    assert_eq!(
        fill_color(&image, &tri((4, 0), (4, 4), (0, 0))),
        Some(Color { red: 20, green: 10, blue: 3 })
    );
    // the far corner of the rectangle: centroid (10/3, 11/3)
    assert_eq!(
        fill_color(&image, &tri((4, 4), (3, 4), (3, 3))),
        Some(Color { red: 30, green: 30, blue: 6 })
    );
}

#[test]
fn fill_colour_beside_the_raster() {
    let image = Raster::new(4, 4).unwrap();
    assert_eq!(fill_color(&image, &tri((4, 0), (9, 0), (4, 3))), None);
    assert_eq!(fill_color(&image, &tri((0, -1), (-3, -1), (0, -9))), None);
    assert_eq!(fill_color(&image, &tri((0, 4), (3, 5), (0, 9))), None);
    let none = Raster::new(0, 0).unwrap();
    assert_eq!(fill_color(&none, &tri((0, 0), (3, 0), (0, 3))), None);
}

#[test]
fn format_error_in_colour() {
    colored::control::set_override(true);
    assert_eq!(format_error("boom"), "\u{1b}[31m\u{2718}\u{1b}[0m boom");
}

#[test]
fn format_success_in_colour() {
    colored::control::set_override(true);
    assert_eq!(format_success("fine"), "\u{1b}[32m\u{2714}\u{1b}[0m fine");
}

#[test]
fn format_without_colour() {
    colored::control::set_override(false);
    assert_eq!(format_error("boom"), "\u{2718} boom");
    assert_eq!(format_success("fine"), "\u{2714} fine");
}

#[test]
fn success_and_failure_never_look_alike() {
    for on in [true, false] {
        colored::control::set_override(on);
        for message in ["", "done", "\u{2718}", "\u{2714} x"] {
            assert_ne!(format_error(message), format_success(message));
        }
    }
}
