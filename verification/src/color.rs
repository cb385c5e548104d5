//! ARGB colours. A UDF stores a colour as a signed 32-bit integer whose bit pattern is
//! alpha, red, green, blue (high byte first). The bits are reinterpreted as unsigned
//! before the channels are taken, so a negative value such as opaque red does not
//! sign-extend.

use vstd::prelude::*;
use crate::text::{decimal, digit_char, digit_to_char, hex2, push_decimal, push_hex2};

verus! {

/// The `(r, g, b, a)` channels of a signed ARGB value.
pub open spec fn spec_rgba(v: i32) -> (u8, u8, u8, u8) {
    let u = v as u32;
    (
        ((u / 0x1_0000) % 256) as u8,
        ((u / 0x100) % 256) as u8,
        (u % 256) as u8,
        (u / 0x100_0000) as u8,
    )
}

/// CSS `#rrggbb` of the red, green and blue channels.
pub open spec fn spec_hex_rgb(r: u8, g: u8, b: u8) -> Seq<char> {
    seq!['#'] + hex2(r) + hex2(g) + hex2(b)
}

/// The CSS alpha of a byte, to three decimals: `a / 255` rounded to the nearest
/// thousandth, written `0.ddd` or `1.000`.
pub open spec fn alpha_thousandths(a: u8) -> nat {
    ((a as nat) * 2000 + 255) / 510
}

pub open spec fn three_decimals(m: nat) -> Seq<char> {
    decimal(m / 1000) + seq!['.', digit_char(((m / 100) % 10) as int),
        digit_char(((m / 10) % 10) as int), digit_char((m % 10) as int)]
}

/// CSS `rgba(r, g, b, a)` text.
pub open spec fn spec_css_rgba(v: i32) -> Seq<char> {
    let (r, g, b, a) = spec_rgba(v);
    "rgba("@ + decimal(r as nat) + ", "@ + decimal(g as nat) + ", "@ + decimal(b as nat) + ", "@
        + three_decimals(alpha_thousandths(a)) + ")"@
}

/// Convert a signed ARGB `i32` to `(r, g, b, a)` byte components.
pub fn argb_to_rgba(value: i32) -> (r: (u8, u8, u8, u8))
    ensures
        r == spec_rgba(value),
{
    let unsigned = value as u32;
    let a = ((unsigned >> 24) & 0xFF) as u8;
    let r = ((unsigned >> 16) & 0xFF) as u8;
    let g = ((unsigned >> 8) & 0xFF) as u8;
    let b = (unsigned & 0xFF) as u8;
    assert(((unsigned >> 24) & 0xFF) == unsigned / 0x100_0000) by (bit_vector);
    assert(((unsigned >> 16) & 0xFF) == (unsigned / 0x1_0000) % 256) by (bit_vector);
    assert(((unsigned >> 8) & 0xFF) == (unsigned / 0x100) % 256) by (bit_vector);
    assert((unsigned & 0xFF) == unsigned % 256) by (bit_vector);
    (r, g, b, a)
}

/// CSS `#rrggbb` for a fill/text colour (alpha dropped).
pub fn css_hex(value: i32) -> (s: String)
    ensures
        s@ == spec_hex_rgb(spec_rgba(value).0, spec_rgba(value).1, spec_rgba(value).2),
{
    let (r, g, b, _) = argb_to_rgba(value);
    let mut s = String::new();
    s.push('#');
    push_hex2(&mut s, r);
    push_hex2(&mut s, g);
    push_hex2(&mut s, b);
    assert(s@ =~= spec_hex_rgb(r, g, b));
    s
}

/// CSS `rgba(r, g, b, a)` honouring the stored alpha, written with three decimals.
pub fn css_rgba(value: i32) -> (s: String)
    ensures
        s@ == spec_css_rgba(value),
{
    let (r, g, b, a) = argb_to_rgba(value);
    let m: u32 = ((a as u32) * 2000 + 255) / 510;
    let mut s = String::new();
    s.append("rgba(");
    push_decimal(&mut s, r as u128);
    s.append(", ");
    push_decimal(&mut s, g as u128);
    s.append(", ");
    push_decimal(&mut s, b as u128);
    s.append(", ");
    push_decimal(&mut s, (m / 1000) as u128);
    s.push('.');
    s.push(digit_to_char(((m / 100) % 10) as u8));
    s.push(digit_to_char(((m / 10) % 10) as u8));
    s.push(digit_to_char((m % 10) as u8));
    s.append(")");
    assert(s@ =~= spec_css_rgba(value));
    s
}

/// Border colour as an **opaque** `(r, g, b, 255)`: border visibility is driven by the
/// border style and spec bits, never by the colour's alpha, so `0` is opaque black.
pub fn border_rgb_opaque(value: i32) -> (r: (u8, u8, u8, u8))
    ensures
        r == (spec_rgba(value).0, spec_rgba(value).1, spec_rgba(value).2, 255u8),
{
    let (r, g, b, _alpha_ignored) = argb_to_rgba(value);
    (r, g, b, 255)
}

/// CSS `#rrggbb` for a border colour (always opaque).
pub fn border_css_hex(value: i32) -> (s: String)
    ensures
        s@ == spec_hex_rgb(spec_rgba(value).0, spec_rgba(value).1, spec_rgba(value).2),
{
    let (r, g, b, _) = border_rgb_opaque(value);
    let mut s = String::new();
    s.push('#');
    push_hex2(&mut s, r);
    push_hex2(&mut s, g);
    push_hex2(&mut s, b);
    assert(s@ =~= spec_hex_rgb(r, g, b));
    s
}

/// The four channels are exactly the four bytes of the value's bit pattern, alpha
/// highest, then red, green and blue: no channel picks up a sign extension.
pub proof fn lemma_channels_are_bytes(v: i32)
    ensures
        (spec_rgba(v).3 as int) * 0x100_0000 + (spec_rgba(v).0 as int) * 0x1_0000 + (spec_rgba(v).1 as int)
            * 0x100 + (spec_rgba(v).2 as int) == (v as u32) as int,
{
    let u = v as u32;
    assert((u / 0x100_0000) * 0x100_0000 + ((u / 0x1_0000) % 256) * 0x1_0000 + ((u / 0x100) % 256)
        * 0x100 + u % 256 == u) by (bit_vector);
}

} // verus!
