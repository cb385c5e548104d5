use udf_core::rune::{rune_len, rune_slice, rune_substring_clamped};

#[test]
fn ascii_slice() {
    assert_eq!(rune_slice("hello world", 0, 5).as_deref(), Some("hello"));
    assert_eq!(rune_slice("hello world", 6, 5).as_deref(), Some("world"));
}

#[test]
fn slice_to_exact_end() {
    assert_eq!(rune_slice("abc", 1, 2).as_deref(), Some("bc"));
    assert_eq!(rune_slice("abc", 0, 3).as_deref(), Some("abc"));
    assert_eq!(rune_slice("abc", 3, 0).as_deref(), Some(""));
}

#[test]
fn out_of_range_is_none() {
    assert_eq!(rune_slice("abc", 1, 5), None);
    assert_eq!(rune_slice("abc", 4, 0), None);
    assert_eq!(rune_slice("abc", usize::MAX, 1), None); // start + len overflows
}

#[test]
fn turkish_multibyte_is_one_rune_each() {
    // Each of these is one Unicode scalar but several UTF-8 bytes. Offsets are by rune.
    let s = "çğışöü";
    assert_eq!(rune_len(s), 6);
    assert_eq!(rune_slice(s, 0, 1).as_deref(), Some("ç"));
    assert_eq!(rune_slice(s, 5, 1).as_deref(), Some("ü"));
}

#[test]
fn astral_scalars_count_as_one_rune() {
    // U+1D6FC is a single scalar (above U+FFFF) but two UTF-16 code units: one position.
    let s = "x𝛼y";
    assert_eq!(rune_len(s), 3);
    assert_eq!(rune_slice(s, 1, 1).as_deref(), Some("𝛼"));
    assert_eq!(rune_slice(s, 0, 2).as_deref(), Some("x𝛼"));
    assert_eq!(rune_slice(s, 2, 1).as_deref(), Some("y"));
}

#[test]
fn clamped_in_range_matches_strict() {
    assert_eq!(rune_substring_clamped("hello", 1, 3), "ell");
    assert_eq!(rune_substring_clamped("x𝛼y", 1, 1), "𝛼");
}

#[test]
fn clamped_out_of_range_does_not_panic() {
    assert_eq!(rune_substring_clamped("abc", 1, 99), "bc"); // end clamps
    assert_eq!(rune_substring_clamped("abc", 9, 3), ""); // start past end
    assert_eq!(rune_substring_clamped("abc", -5, 2), "ab"); // negative start -> 0
    assert_eq!(rune_substring_clamped("abc", 1, -1), ""); // negative len -> 0
}

#[test]
fn slice_then_decode_ordering() {
    // The raw CDATA holds `&amp;` as 5 literal scalars; slicing happens on the raw text.
    let raw = "A &amp; B";
    let sliced = rune_slice(raw, 2, 5).unwrap();
    assert_eq!(sliced, "&amp;");
}

#[test]
fn adjacent_slices_concatenate() {
    let s = "Merhaba Dünya";
    let a = rune_slice(s, 2, 4).unwrap();
    let b = rune_slice(s, 6, 5).unwrap();
    let ab = rune_slice(s, 2, 9).unwrap();
    assert_eq!(format!("{a}{b}"), ab);
    assert_eq!(ab, "rhaba Dün");
}

#[test]
fn slice_length_is_requested_length() {
    let s = "çğışöü";
    for start in 0..=6usize {
        for len in 0..=(6 - start) {
            assert_eq!(rune_len(&rune_slice(s, start, len).unwrap()), len);
        }
    }
}
