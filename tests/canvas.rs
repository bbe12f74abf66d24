use raytracer::canvas::Canvas;
use raytracer::color::{color, Color};
use raytracer::decimal::Dec;
use rust_decimal::prelude::FromPrimitive;
use rust_decimal::Decimal;

fn f(v: f32) -> Dec {
    let d = Decimal::from_f32(v).unwrap();
    Dec::new(d.mantissa() as i64, d.scale())
}

fn rgb(r: f32, g: f32, b: f32) -> Color {
    color(f(r), f(g), f(b))
}

#[test]
fn test_creating_a_canvs() {
    let c = Canvas::new(10, 20);

    assert_eq!(c.width, 10);
    assert_eq!(c.height, 20);

    for y in 0..c.height {
        for x in 0..c.width {
            assert_eq!(c.pixel_at(x, y), &rgb(0.0, 0.0, 0.0));
        }
    }
}

#[test]
fn test_writing_pixels_to_a_canvas() {
    let mut c = Canvas::new(10, 20);

    let red = rgb(1.0, 0.0, 0.0);

    c.write_pixel(2, 3, red);

    assert_eq!(c.pixel_at(2, 3), &red);
}

#[test]
fn test_constructing_the_ppm_header() {
    let c = Canvas::new(5, 3);

    let header = c.to_ppm().lines().take(3).collect::<Vec<&str>>().join("\n");

    assert_eq!(header, "P3\n5 3\n255")
}

#[test]
fn test_constructing_the_ppm_pixel_data() {
    let mut c = Canvas::new(5, 3);

    let c1 = rgb(1.5, 0.0, 0.0);
    let c2 = rgb(0.0, 0.5, 0.0);
    let c3 = rgb(-0.5, 0.0, 1.0);

    c.write_pixel(0, 0, c1);
    c.write_pixel(2, 1, c2);
    c.write_pixel(4, 2, c3);

    let mut ppm = c.to_ppm().lines().skip(3).take(3).collect::<Vec<&str>>().join("\n");

    ppm.push_str("\n");

    assert_eq!(
        ppm,
        "255 0 0 0 0 0 0 0 0 0 0 0 0 0 0\n0 0 0 0 0 0 0 128 0 0 0 0 0 0 0\n0 0 0 0 0 0 0 0 0 0 0 0 0 0 255\n"
    )
}

#[test]
fn test_splitting_long_lines_in_ppm_files() {
    let mut c = Canvas::new(10, 2);

    for i in 0..c.height {
        for j in 0..c.width {
            c.write_pixel(j, i, rgb(1.0, 0.8, 0.6));
        }
    }

    let mut ppm = c.to_ppm().lines().skip(3).take(4).collect::<Vec<&str>>().join("\n");

    ppm.push_str("\n");

    assert_eq!(
        ppm,
        "255 204 153 255 204 153 255 204 153 255 204 153 255 204 153 255 204\n153 255 204 153 255 204 153 255 204 153 255 204 153\n255 204 153 255 204 153 255 204 153 255 204 153 255 204 153 255 204\n153 255 204 153 255 204 153 255 204 153 255 204 153\n"
    )
}

#[test]
fn writing_a_pixel_leaves_the_others_unchanged() {
    let mut c = Canvas::new(10, 20);
    let red = rgb(1.0, 0.0, 0.0);
    c.write_pixel(2, 3, red);
    for y in 0..20 {
        for x in 0..10 {
            if (x, y) != (2, 3) {
                assert_eq!(c.pixel_at(x, y), &Color::black());
            }
        }
    }
}

#[test]
fn ppm_header_uses_the_canvas_dimensions() {
    let c = Canvas::new(12, 7);
    assert!(c.to_ppm().starts_with("P3\n12 7\n255\n"));
    let c = Canvas::new(5, 3);
    assert!(c.to_ppm().starts_with("P3\n5 3\n255\n"));
}

#[test]
fn ppm_wrapped_lines_are_short_and_keep_the_values() {
    let mut c = Canvas::new(10, 2);
    for y in 0..2 {
        for x in 0..10 {
            c.write_pixel(x, y, rgb(1.0, 0.8, 0.6));
        }
    }
    let ppm = c.to_ppm();
    let body: Vec<&str> = ppm.lines().skip(3).collect();
    assert_eq!(body.len(), 4);
    for line in &body {
        assert!(line.len() <= 70);
        assert!(!line.ends_with(' '));
    }
    let flat = body.join(" ");
    let expected = vec!["255 204 153"; 20].join(" ");
    assert_eq!(flat, expected);
    assert!(ppm.ends_with('\n'));
}

#[test]
fn ppm_is_the_same_when_taken_twice() {
    let mut c = Canvas::new(4, 3);
    c.write_pixel(1, 2, rgb(0.3, 0.6, 0.9));
    assert_eq!(c.to_ppm(), c.to_ppm());
}

#[test]
fn ppm_of_an_empty_canvas_is_the_header_and_empty_rows() {
    assert_eq!(Canvas::new(0, 0).to_ppm(), "P3\n0 0\n255\n");
    assert_eq!(Canvas::new(0, 2).to_ppm(), "P3\n0 2\n255\n\n\n");
}

#[test]
fn ppm_line_of_exactly_seventy_columns_is_not_wrapped() {
    // Seventeen values of three digits fill 67 columns; a value of two
    // digits then ends the line at column 70, one of three digits wraps.
    let mut c = Canvas::new(6, 2);
    for x in 0..5 {
        c.write_pixel(x, 0, rgb(1.0, 1.0, 1.0));
        c.write_pixel(x, 1, rgb(1.0, 1.0, 1.0));
    }
    c.write_pixel(5, 0, rgb(1.0, 1.0, 0.2));
    c.write_pixel(5, 1, rgb(1.0, 1.0, 0.6));
    let ppm = c.to_ppm();
    let body: Vec<&str> = ppm.lines().skip(3).collect();
    let first = vec!["255"; 17].join(" ") + " 51";
    assert_eq!(first.len(), 70);
    assert_eq!(body, vec![first.as_str(), vec!["255"; 17].join(" ").as_str(), "153"]);
}
