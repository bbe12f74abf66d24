use raytracer::color::{color, decimal_to_8bit, Color};
use raytracer::decimal::Dec;
use rust_decimal::prelude::FromPrimitive;
use rust_decimal::Decimal;

fn f(v: f32) -> Dec {
    let d = Decimal::from_f32(v).unwrap();
    Dec::new(d.mantissa() as i64, d.scale())
}

fn rgb(r: f32, g: f32, b: f32) -> Color {
    color(f(r), f(g), f(b))
}

#[test]
fn test_colors_are_red_green_blue_tuples() {
    let c = rgb(-0.5, 0.4, 1.7);

    assert_eq!(c.red, Dec::new(-5, 1));
    assert_eq!(c.green, Dec::new(4, 1));
    assert_eq!(c.blue, Dec::new(17, 1));
}

#[test]
fn test_adding_color() {
    let c1 = rgb(0.9, 0.6, 0.75);
    let c2 = rgb(0.7, 0.1, 0.25);

    assert_eq!(c1.add(c2), rgb(1.6, 0.7, 1.0));
}

#[test]
fn test_subtracting_colors() {
    let c1 = rgb(0.9, 0.6, 0.75);
    let c2 = rgb(0.7, 0.1, 0.25);

    assert_eq!(c1.sub(c2), rgb(0.2, 0.5, 0.5));
}

#[test]
fn test_multiplying_a_color_by_a_scalar() {
    let c = rgb(0.2, 0.3, 0.4);

    assert_eq!(c.mul_scalar(f(2.0)), rgb(0.4, 0.6, 0.8));
}

#[test]
fn test_multiplying_colors() {
    let c1 = rgb(1.0, 0.2, 0.4);
    let c2 = rgb(0.9, 1.0, 0.1);

    assert_eq!(c1.mul(c2), rgb(0.9, 0.2, 0.04));
}

#[test]
fn test_to_string() {
    assert_eq!(rgb(1.0, 0.0, 0.0).to_string(), "255 0 0");
    assert_eq!(rgb(0.0, 0.5, 0.0).to_string(), "0 128 0");
    assert_eq!(rgb(-0.5, 0.0, 1.0).to_string(), "0 0 255");
}

#[test]
fn quantization_clamps_and_rounds_half_up() {
    assert_eq!(decimal_to_8bit(Dec::new(-5, 1)), 0);
    assert_eq!(decimal_to_8bit(Dec::new(15, 1)), 255);
    assert_eq!(decimal_to_8bit(Dec::new(5, 1)), 128);
    assert_eq!(decimal_to_8bit(Dec::new(0, 0)), 0);
    assert_eq!(decimal_to_8bit(Dec::new(1, 0)), 255);
    assert_eq!(decimal_to_8bit(Dec::new(8, 1)), 204);
    assert_eq!(decimal_to_8bit(Dec::new(6, 1)), 153);
    // 0.002 * 255 = 0.51 rounds up; 0.001 * 255 = 0.255 rounds down
    assert_eq!(decimal_to_8bit(Dec::new(2, 3)), 1);
    assert_eq!(decimal_to_8bit(Dec::new(1, 3)), 0);
}

#[test]
fn quantization_of_a_color_string_uses_each_channel() {
    assert_eq!(rgb(0.2, 2.0, -3.0).to_string(), "51 255 0");
}

#[test]
fn color_arithmetic_is_exact_and_unclamped() {
    let c = rgb(0.9, 0.6, 0.75).add(rgb(0.7, 0.1, 0.25));
    assert_eq!(c.red, Dec::new(16, 1));
    assert_eq!(c.blue, Dec::new(1, 0));
    let d = rgb(0.1, 0.1, 0.1).sub(rgb(0.3, 0.1, 0.0));
    assert_eq!(d, color(Dec::new(-2, 1), Dec::zero(), Dec::new(1, 1)));
}

#[test]
fn black_is_all_zero() {
    assert_eq!(Color::black(), rgb(0.0, 0.0, 0.0));
    assert_eq!(Color::black().to_string(), "0 0 0");
}
