use udf_core::zip::{content_xml_from_entry, extract_content_xml, ArchiveFailure};
use udf_core::UdfError;

#[test]
fn non_zip_bytes_error_not_panic() {
    let err = extract_content_xml(b"not a zip at all").unwrap_err();
    assert!(matches!(err, UdfError::InvalidZip(_)));
}

#[test]
fn empty_bytes_error_not_panic() {
    assert!(extract_content_xml(&[]).is_err());
}

#[test]
fn entry_outcomes_map_to_parse_errors() {
    assert_eq!(content_xml_from_entry(Ok(vec![1, 2, 3])).unwrap(), vec![1, 2, 3]);
    match content_xml_from_entry(Err(ArchiveFailure::Open("bad".to_string()))) {
        Err(UdfError::InvalidZip(m)) => assert_eq!(m, "bad"),
        other => panic!("expected InvalidZip, got {other:?}"),
    }
    assert!(matches!(content_xml_from_entry(Err(ArchiveFailure::MissingEntry)), Err(UdfError::MissingContentXml)));
    match content_xml_from_entry(Err(ArchiveFailure::Read("eof".to_string()))) {
        Err(UdfError::InvalidZip(m)) => assert_eq!(m, "eof"),
        other => panic!("expected InvalidZip, got {other:?}"),
    }
}
