use raytracer_rust::canvas::{ppm_file, Canvas, Sized, ToPPM};
use raytracer_rust::color::{push_decimal, clamp_channel, Color, ToRGB};

fn decimal(n: usize) -> String {
    let mut out = String::new();
    push_decimal(&mut out, n);
    out
}

#[test]
fn decimal_numerals() {
    assert_eq!(decimal(0), "0");
    assert_eq!(decimal(7), "7");
    assert_eq!(decimal(10), "10");
    assert_eq!(decimal(255), "255");
    assert_eq!(decimal(1234567890), "1234567890");
    assert_eq!(decimal(usize::MAX), usize::MAX.to_string());
}

#[test]
fn push_decimal_appends() {
    let mut out = String::from("w=");
    push_decimal(&mut out, 640);
    assert_eq!(out, "w=640");
}

#[test]
fn channels_are_clamped_to_the_byte_range() {
    assert_eq!(clamp_channel(-1), 0);
    assert_eq!(clamp_channel(i64::MIN), 0);
    assert_eq!(clamp_channel(0), 0);
    assert_eq!(clamp_channel(97), 97);
    assert_eq!(clamp_channel(255), 255);
    assert_eq!(clamp_channel(256), 255);
    assert_eq!(clamp_channel(i64::MAX), 255);
}

#[test]
fn color_constants() {
    assert_eq!(Color::white(), Color::new(255, 255, 255));
    assert_eq!(Color::black(), Color::new(0, 0, 0));
    let c = Color::new(1, -2, 3);
    assert_eq!((c.red, c.green, c.blue), (1, -2, 3));
}

#[test]
fn rgb_string_of_a_scaled_color() {
    let scaled = |c: f64| (c * 255.0).floor() as i64;
    let c = Color::new(scaled(0.38066), scaled(0.47583), scaled(0.2855));
    assert_eq!(c.to_rgb_string(), "97 121 72");
    assert_eq!(Color::new(scaled(1.5), scaled(0.5), scaled(-0.5)).to_rgb_string(), "255 127 0");
    assert_eq!(Color::white().to_rgb_string(), "255 255 255");
    assert_eq!(Color::black().to_rgb_string(), "0 0 0");
}

#[test]
fn new_canvas_is_black() {
    let canvas = Canvas::new(10, 20);
    assert_eq!(canvas.width(), 10);
    assert_eq!(canvas.height(), 20);
    for y in 0..20 {
        for x in 0..10 {
            assert_eq!(canvas.color_at_pixel(x, y), Color::black());
        }
    }
}

#[test]
fn writing_a_pixel_changes_that_pixel_only() {
    let mut canvas = Canvas::new(4, 3);
    let red = Color::new(255, 0, 0);
    canvas.set_color_at_pixel(2, 1, red);
    for y in 0..3 {
        for x in 0..4 {
            let expected = if (x, y) == (2, 1) { red } else { Color::black() };
            assert_eq!(canvas.color_at_pixel(x, y), expected);
        }
    }
    canvas.set_color_at_pixel(3, 2, Color::white());
    canvas.set_color_at_pixel(0, 0, Color::new(1, 2, 3));
    assert_eq!(canvas.color_at_pixel(3, 2), Color::white());
    assert_eq!(canvas.color_at_pixel(0, 0), Color::new(1, 2, 3));
    assert_eq!(canvas.color_at_pixel(2, 1), red);
}

#[test]
fn writes_to_different_pixels_commute() {
    let a = Color::new(10, 20, 30);
    let b = Color::new(40, 50, 60);
    let mut first = Canvas::new(3, 2);
    first.set_color_at_pixel(0, 1, a);
    first.set_color_at_pixel(2, 0, b);
    let mut second = Canvas::new(3, 2);
    second.set_color_at_pixel(2, 0, b);
    second.set_color_at_pixel(0, 1, a);
    assert_eq!(first.to_ppm(), second.to_ppm());
    for y in 0..2 {
        for x in 0..3 {
            assert_eq!(first.color_at_pixel(x, y), second.color_at_pixel(x, y));
        }
    }
}

#[test]
fn header_names_format_size_and_depth() {
    assert_eq!(Canvas::new(5, 3).header(), "P3\n5 3\n255\n");
    assert_eq!(Canvas::new(800, 600).header(), "P3\n800 600\n255\n");
    assert_eq!(Canvas::new(0, 0).header(), "P3\n0 0\n255\n");
}

#[test]
fn ppm_lists_pixels_row_by_row() {
    let mut canvas = Canvas::new(2, 2);
    canvas.set_color_at_pixel(0, 0, Color::new(382, 0, 0));
    canvas.set_color_at_pixel(1, 0, Color::new(0, 127, 0));
    canvas.set_color_at_pixel(0, 1, Color::new(-127, 0, 255));
    assert_eq!(canvas.to_ppm(), "255 0 0\n0 127 0\n0 0 255\n0 0 0\n");
    assert_eq!(Canvas::new(0, 7).to_ppm(), "");
    assert_eq!(Canvas::new(1, 1).to_ppm(), "0 0 0\n");
}

#[test]
fn ppm_file_is_header_then_pixels() {
    let mut canvas = Canvas::new(2, 1);
    canvas.set_color_at_pixel(1, 0, Color::new(255, 128, 0));
    assert_eq!(ppm_file(&canvas), "P3\n2 1\n255\n0 0 0\n255 128 0\n");
    assert_eq!(ppm_file(&Canvas::new(0, 0)), "P3\n0 0\n255\n");
}

#[test]
fn canvas_from_rows() {
    let a = Color::new(1, 2, 3);
    let b = Color::new(4, 5, 6);
    let c = Color::new(7, 8, 9);
    let canvas = Canvas::from_rows(3, vec![vec![a, b, c], vec![c, a, b]]).unwrap();
    assert_eq!((canvas.width(), canvas.height()), (3, 2));
    assert_eq!(canvas.color_at_pixel(0, 0), a);
    assert_eq!(canvas.color_at_pixel(2, 0), c);
    assert_eq!(canvas.color_at_pixel(0, 1), c);
    assert_eq!(canvas.color_at_pixel(1, 1), a);
    assert_eq!(canvas.to_ppm(), "1 2 3\n4 5 6\n7 8 9\n7 8 9\n1 2 3\n4 5 6\n");
}

#[test]
fn canvas_from_rows_wants_rows_of_the_width() {
    let a = Color::black();
    assert!(Canvas::from_rows(2, vec![vec![a, a], vec![a]]).is_none());
    assert!(Canvas::from_rows(2, vec![vec![a, a, a]]).is_none());
    assert!(Canvas::from_rows(1, vec![vec![]]).is_none());
    let empty = Canvas::from_rows(5, vec![]).unwrap();
    assert_eq!((empty.width(), empty.height()), (5, 0));
    let thin = Canvas::from_rows(0, vec![vec![], vec![]]).unwrap();
    assert_eq!((thin.width(), thin.height()), (0, 2));
}

#[test]
fn rows_round_trip() {
    let mut canvas = Canvas::new(3, 2);
    canvas.set_color_at_pixel(1, 0, Color::new(9, 9, 9));
    canvas.set_color_at_pixel(2, 1, Color::white());
    let rows = canvas.to_rows();
    assert_eq!(rows.len(), 2);
    assert_eq!(rows[0], vec![Color::black(), Color::new(9, 9, 9), Color::black()]);
    assert_eq!(rows[1], vec![Color::black(), Color::black(), Color::white()]);
    let again = Canvas::from_rows(3, rows).unwrap();
    assert_eq!(again.to_ppm(), canvas.to_ppm());
    assert_eq!(Canvas::new(4, 0).to_rows().len(), 0);
}
