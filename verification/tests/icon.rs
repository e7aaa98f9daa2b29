use thundertray::icon::{
    badge_glyph_pixels, badge_layout, convert_to_argb_be, hex_value, parse_hex_color,
    parse_hex_rgb, BadgeShape, ICON_SIZE,
};
use tiny_skia::Color;

#[test]
fn hex_digits_of_both_cases_are_read() {
    assert_eq!(hex_value(b'0'), Some(0));
    assert_eq!(hex_value(b'9'), Some(9));
    assert_eq!(hex_value(b'a'), Some(10));
    assert_eq!(hex_value(b'F'), Some(15));
    assert_eq!(hex_value(b'g'), None);
    assert_eq!(hex_value(b'#'), None);
}

#[test]
fn short_and_long_colors_are_parsed() {
    assert_eq!(parse_hex_rgb("#FF0000"), Some((255, 0, 0)));
    assert_eq!(parse_hex_rgb("  #aB0 "), Some((0xAA, 0xBB, 0x00)));
    assert_eq!(parse_hex_rgb("##123aBc"), Some((0x12, 0x3A, 0xBC)));
    assert_eq!(parse_hex_rgb("123"), Some((0x11, 0x22, 0x33)));
    assert_eq!(parse_hex_rgb("red"), None);
    assert_eq!(parse_hex_rgb("#not-a-colour"), None);
    assert_eq!(parse_hex_rgb("#FFFF"), None);
    assert_eq!(parse_hex_rgb(""), None);
}

#[test]
fn invalid_colors_fall_back_without_panicking() {
    let fallback = Color::from_rgba8(0xE5, 0x39, 0x35, 255);
    assert_eq!(parse_hex_color("red", fallback), fallback);
    let red = parse_hex_color("#FF0000", fallback);
    assert_eq!(red, Color::from_rgba8(255, 0, 0, 255));
    assert_ne!(red, fallback);
}

#[test]
fn badge_layout_follows_the_digit_count() {
    assert!(badge_layout(0).is_none());

    let one = badge_layout(5).expect("badge for one digit");
    assert_eq!(one.text, "5");
    assert_eq!(one.shape, BadgeShape::Circle);
    assert_eq!((one.center_x, one.center_y), (18, 18));

    let two = badge_layout(42).expect("badge for two digits");
    assert_eq!(two.text, "42");
    assert_eq!(two.shape, BadgeShape::Pill);
    assert_eq!(two.center_x, 17);

    let many = badge_layout(150).expect("badge for many");
    assert_eq!(many.text, "99+");
    assert_eq!(many.shape, BadgeShape::WidePill);
    assert_eq!(many.center_x, 15);

    assert_eq!(badge_layout(99).expect("badge for 99").text, "99");
    assert_eq!(badge_layout(100).expect("badge for 100").text, "99+");
}

#[test]
fn overflow_badge_fits_all_three_glyphs_inside_the_canvas() {
    let pixels = badge_glyph_pixels(150);
    // The left "9" and the right '+' both render.
    assert!(pixels.iter().any(|(x, _)| *x <= 12));
    assert!(pixels.iter().any(|(x, _)| *x >= 18));
    // Nothing reaches the last row or column.
    assert!(pixels.iter().all(|(x, y)| *x < ICON_SIZE - 1 && *y < ICON_SIZE - 1));
}

#[test]
fn no_glyphs_without_unread_mail() {
    assert!(badge_glyph_pixels(0).is_empty());
    assert!(!badge_glyph_pixels(7).is_empty());
}

#[test]
fn one_glyph_is_drawn_around_its_center() {
    // "1" is the bitmap 010/110/010/010/111 drawn with its centre at x = 18,
    // from y = 16.
    let mut pixels = badge_glyph_pixels(1);
    pixels.sort();
    let mut expected = vec![
        (18, 16),
        (17, 17),
        (18, 17),
        (18, 18),
        (18, 19),
        (17, 20),
        (18, 20),
        (19, 20),
    ];
    expected.sort();
    assert_eq!(pixels, expected);
}

#[test]
fn premultiplied_pixels_become_straight_argb() {
    let data = [
        255, 0, 0, 255, // opaque red
        64, 32, 0, 128, // half-transparent
        1, 2, 3, 0, // fully transparent keeps its components
        9, 9, // an incomplete pixel is dropped
    ];
    assert_eq!(
        convert_to_argb_be(&data),
        vec![255, 255, 0, 0, 128, 127, 63, 0, 0, 1, 2, 3]
    );
}

#[test]
fn short_colors_are_long_colors_with_doubled_digits() {
    assert_eq!(parse_hex_rgb("#aB0"), parse_hex_rgb("#aaBB00"));
    assert_eq!(parse_hex_rgb("#F0c"), Some((0xFF, 0x00, 0xCC)));
}

#[test]
fn colors_the_configuration_accepts_are_drawn() {
    for color in ["#ABC", "#123aBc", "#FF0000", "#fff"] {
        assert!(thundertray::config::is_valid_color(color));
        assert!(parse_hex_rgb(color).is_some());
    }
}

#[test]
fn every_count_above_99_is_drawn_as_99_plus() {
    let mut reference = badge_glyph_pixels(100);
    reference.sort();
    for count in [101, 999, 5_000, u32::MAX] {
        let mut pixels = badge_glyph_pixels(count);
        pixels.sort();
        assert_eq!(pixels, reference);
        let layout = badge_layout(count).expect("badge for many");
        assert_eq!(layout.text, "99+");
        assert_eq!(layout.shape, BadgeShape::WidePill);
    }
}
