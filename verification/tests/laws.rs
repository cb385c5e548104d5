//! Concrete instances of the properties the library proves for all inputs.

use udf_core::html::{bump_counter, escape_text};
use udf_core::model::Alignment;

#[test]
fn list_numbers_are_kept_per_list() {
    let mut c: Vec<(Option<i32>, u64)> = Vec::new();
    assert_eq!(bump_counter(&mut c, Some(1)), 1);
    assert_eq!(bump_counter(&mut c, None), 1);
    assert_eq!(bump_counter(&mut c, Some(1)), 2);
    assert_eq!(bump_counter(&mut c, Some(2)), 1);
    assert_eq!(bump_counter(&mut c, None), 2);
    assert_eq!(bump_counter(&mut c, Some(1)), 3);
    assert_eq!(c, vec![(Some(1), 3), (None, 2), (Some(2), 1)]);
}

#[test]
fn alignment_raw_values_read_back() {
    for a in [Alignment::Left, Alignment::Center, Alignment::Right, Alignment::Justify] {
        let raw = a.raw().to_string();
        assert_eq!(Alignment::from_attr(Some(&raw)), a);
    }
    assert_eq!(Alignment::from_attr(Some("7")), Alignment::Left);
    assert_eq!(Alignment::from_attr(None), Alignment::Left);
}

#[test]
fn escaping_removes_every_tag_character() {
    for s in ["", "<", ">>", "a<b", "<p>&</p>", "x>y<z"] {
        let e = escape_text(s);
        assert!(!e.contains('<') && !e.contains('>'), "{e}");
    }
}
