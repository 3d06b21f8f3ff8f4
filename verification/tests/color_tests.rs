use barblocks::text::color::Color;
use barblocks::text::color::ParseError;

#[test]
fn empty_string_is_fully_transparent_zero_color() {
    let c = Color::from_str("").unwrap();
    assert_eq!(c, Color { a: 0, r: 0, g: 0, b: 0 });
    assert_eq!(c.a as f64 / 255.0, 0.0);
}

#[test]
fn six_digits_are_opaque_rgb() {
    let c = Color::from_str("FF0000").unwrap();
    assert_eq!(c, Color { a: 255, r: 255, g: 0, b: 0 });
    assert_eq!(c.r as f64 / 255.0, 1.0);
    assert_eq!(c.g as f64 / 255.0, 0.0);
    assert_eq!(c.b as f64 / 255.0, 0.0);
    assert_eq!(c.a as f64 / 255.0, 1.0);
}

#[test]
fn eight_digits_carry_alpha_first() {
    let c = Color::from_str("80FF0000").unwrap();
    assert_eq!(c, Color { a: 0x80, r: 255, g: 0, b: 0 });
    let alpha = c.a as f64 / 255.0;
    assert!((alpha - 0.502).abs() < 0.001);
}

#[test]
fn nine_digits_fail_with_the_length() {
    let e = Color::from_str("123456789").unwrap_err();
    assert_eq!(e, ParseError::Length(9));
}

#[test]
fn leading_hash_is_stripped() {
    let c = Color::from_str("#000000").unwrap();
    assert_eq!(c, Color { a: 255, r: 0, g: 0, b: 0 });
}

#[test]
fn one_or_two_digits_set_blue_alone() {
    assert_eq!(Color::from_str("f").unwrap(), Color { a: 255, r: 0, g: 0, b: 15 });
    assert_eq!(Color::from_str("7F").unwrap(), Color { a: 255, r: 0, g: 0, b: 127 });
}

#[test]
fn three_or_four_digits_set_green_and_blue() {
    assert_eq!(Color::from_str("A01").unwrap(), Color { a: 255, r: 0, g: 0x0A, b: 0x01 });
    assert_eq!(Color::from_str("BB22").unwrap(), Color { a: 255, r: 0, g: 0xBB, b: 0x22 });
}

#[test]
fn a_bad_digit_is_rejected() {
    let e = Color::from_str("GG0000").unwrap_err();
    assert_eq!(e, ParseError::InvalidDigit);
}

#[test]
fn named_constructors_match_their_channels() {
    assert_eq!(Color::white(), Color { a: 255, r: 255, g: 255, b: 255 });
    assert_eq!(Color::black(), Color { a: 255, r: 0, g: 0, b: 0 });
    assert_eq!(Color::red(), Color { a: 255, r: 255, g: 0, b: 0 });
    assert_eq!(Color::green(), Color { a: 255, r: 0, g: 255, b: 0 });
    assert_eq!(Color::blue(), Color { a: 255, r: 0, g: 0, b: 255 });
}
