use udf_core::color::{argb_to_rgba, border_css_hex, border_rgb_opaque, css_hex, css_rgba};

#[test]
fn opaque_red_from_negative_i32() {
    // 0xFFFF0000 as i32 is negative; must not sign-extend.
    let red = 0xFFFF0000u32 as i32;
    assert_eq!(argb_to_rgba(red), (255, 0, 0, 255));
    assert_eq!(css_hex(red), "#ff0000");
}

#[test]
fn opaque_black_standard() {
    let black = 0xFF000000u32 as i32; // -16777216
    assert_eq!(argb_to_rgba(black), (0, 0, 0, 255));
}

#[test]
fn fully_transparent_zero() {
    // As a fill/text colour, 0 is fully transparent (alpha byte = 0).
    assert_eq!(argb_to_rgba(0), (0, 0, 0, 0));
    assert_eq!(css_rgba(0), "rgba(0, 0, 0, 0.000)");
}

#[test]
fn border_color_zero_is_opaque_black() {
    // As a border colour, 0 renders opaque black.
    assert_eq!(border_rgb_opaque(0), (0, 0, 0, 255));
    assert_eq!(border_css_hex(0), "#000000");
}

#[test]
fn border_ignores_alpha() {
    // A semi-transparent blue border still renders fully opaque.
    let semi_blue = 0x800000FFu32 as i32; // alpha 0x80, blue 0xFF
    assert_eq!(border_rgb_opaque(semi_blue), (0, 0, 255, 255));
}

#[test]
fn channel_order_rgb() {
    let c = 0x00112233; // a=00 r=11 g=22 b=33
    assert_eq!(argb_to_rgba(c), (0x11, 0x22, 0x33, 0x00));
    assert_eq!(css_hex(c), "#112233");
}

#[test]
fn css_rgba_rounds_alpha_to_three_decimals() {
    assert_eq!(css_rgba(0xFF112233u32 as i32), "rgba(17, 34, 51, 1.000)");
    assert_eq!(css_rgba(0x80FF0000u32 as i32), "rgba(255, 0, 0, 0.502)");
    assert_eq!(css_rgba(0x01000000u32 as i32), "rgba(0, 0, 0, 0.004)");
}

#[test]
fn channels_reassemble_the_bit_pattern() {
    for v in [-123456789i32, -1, 0, 1, i32::MIN, i32::MAX, 0x7F80FF01] {
        let (r, g, b, a) = argb_to_rgba(v);
        let joined = (a as u32) << 24 | (r as u32) << 16 | (g as u32) << 8 | b as u32;
        assert_eq!(joined, v as u32);
    }
}

#[test]
fn border_hex_keeps_channels_of_fill_hex() {
    let v = 0x40ABCDEFu32 as i32;
    assert_eq!(border_css_hex(v), css_hex(v));
    assert_eq!(border_css_hex(v), "#abcdef");
    let (r, g, b, a) = border_rgb_opaque(v);
    assert_eq!((r, g, b, a), (0xAB, 0xCD, 0xEF, 255));
}
