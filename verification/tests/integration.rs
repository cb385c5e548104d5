//! Whole `.udf` archives built in memory from a `content.xml` string.

use std::io::Write;

use udf_core::model::{BlockElement, Document, InlineElement};
use udf_core::num::Num;
use udf_core::{parse, to_html, to_rtf, udf_to_html, udf_to_rtf, UdfError};

/// Wrap a `content.xml` string into a minimal `.udf` (ZIP) byte vector.
fn udf_with_content_xml(xml: &str) -> Vec<u8> {
    udf_with_entry("content.xml", xml.as_bytes())
}

/// Build a `.udf` ZIP whose single entry has the given name.
fn udf_with_entry(name: &str, body: &[u8]) -> Vec<u8> {
    let mut buf = Vec::new();
    {
        let mut w = zip::ZipWriter::new(std::io::Cursor::new(&mut buf));
        let opts: zip::write::SimpleFileOptions = zip::write::SimpleFileOptions::default()
            .compression_method(zip::CompressionMethod::Stored);
        w.start_file(name, opts).unwrap();
        w.write_all(body).unwrap();
        w.finish().unwrap();
    }
    buf
}

fn braces_balanced(s: &str) -> bool {
    let mut depth: i32 = 0;
    let mut prev_backslash = false;
    for c in s.chars() {
        match c {
            '{' if !prev_backslash => depth += 1,
            '}' if !prev_backslash => {
                depth -= 1;
                if depth < 0 {
                    return false;
                }
            }
            _ => {}
        }
        prev_backslash = c == '\\' && !prev_backslash;
    }
    depth == 0
}

/// The HTML is XML-parseable once the HTML5 doctype is stripped.
fn assert_wellformed_html(html: &str) {
    let body = html.strip_prefix("<!doctype html>").unwrap_or(html).trim_start();
    if let Err(e) = roxmltree::Document::parse(body) {
        panic!("generated HTML is not well-formed XML: {e}");
    }
}

#[test]
fn rune_offsets_slice_turkish_text_through_parser() {
    // "Merhaba Dünya" — runes: M0 e1 r2 h3 a4 b5 a6 (space)7 D8 ü9 n10 y11 a12
    let xml = r#"<?xml version="1.0" encoding="UTF-8" ?>
<template format_id="1.8">
<content><![CDATA[Merhaba Dünya]]></content>
<properties><pageFormat mediaSizeName="1" /></properties>
<elements resolver="hvl-default">
<paragraph Alignment="0"><content startOffset="0" length="7" family="Arial" size="14" bold="true" /><content startOffset="8" length="5" family="Arial" size="14" /></paragraph>
</elements>
</template>"#;
    let doc = parse(&udf_with_content_xml(xml)).expect("should parse");
    assert_eq!(doc.body.len(), 1);
    let BlockElement::Paragraph(p) = &doc.body[0] else {
        panic!("expected paragraph");
    };
    assert_eq!(p.runs.len(), 2);
    let InlineElement::Text(r0) = &p.runs[0] else {
        panic!("text run");
    };
    let InlineElement::Text(r1) = &p.runs[1] else {
        panic!("text run");
    };
    assert_eq!(r0.text, "Merhaba");
    assert_eq!(r0.style.font_family, "Arial");
    assert_eq!(r0.style.font_size, Num::points(14));
    assert!(r0.style.bold);
    // "Dünya" — the multibyte 'ü' is sliced as a single rune, not split.
    assert_eq!(r1.text, "Dünya");
    assert!(!r1.style.bold);
}

#[test]
fn empty_paragraph_placeholder_captures_font_and_no_runs() {
    let xml = r#"<?xml version="1.0" encoding="UTF-8" ?>
<template format_id="1.8">
<content><![CDATA[X]]></content>
<elements resolver="hvl-default">
<paragraph Alignment="0"><content startOffset="0" length="1" family="Courier New" size="10" /></paragraph>
</elements>
</template>"#;
    let doc = parse(&udf_with_content_xml(xml)).expect("should parse");
    let BlockElement::Paragraph(p) = &doc.body[0] else {
        panic!("paragraph");
    };
    assert!(p.runs.is_empty(), "placeholder yields no runs");
    let s = p.empty_content_style.as_ref().expect("captured empty style");
    assert_eq!(s.font_family, "Courier New");
    assert_eq!(s.font_size, Num::points(10));
}

#[test]
fn parses_nested_table_with_inherited_border() {
    let xml = r#"<?xml version="1.0" encoding="UTF-8" ?>
<template format_id="1.8">
<content><![CDATA[AB]]></content>
<elements resolver="hvl-default">
<table tableName="Sabit" columnCount="1" border="borderTable" borderStyle="borderStyle-solid" borderWidth="1.0" borderColor="0" borderSpec="15" columnSpans="100">
<row rowName="row1" rowType="dataRow">
<cell>
<paragraph Alignment="0"><content startOffset="0" length="1" family="Arial" size="12" /></paragraph>
<table tableName="Sabit" columnCount="1" columnSpans="100">
<row><cell><paragraph Alignment="0"><content startOffset="1" length="1" family="Arial" size="12" /></paragraph></cell></row>
</table>
</cell>
</row>
</table>
</elements>
</template>"#;
    let doc = parse(&udf_with_content_xml(xml)).expect("should parse");
    let BlockElement::Table(t) = &doc.body[0] else {
        panic!("table");
    };
    assert_eq!(t.border_color, Some(0));
    let cell = &t.rows[0].cells[0];
    // The cell defines no border of its own, so it inherits the table-level border.
    assert_eq!(cell.border.name, "borderTable");
    assert_eq!(cell.border_color, 0); // 0 here means opaque black at render time
    // The cell holds a paragraph then a nested table.
    assert_eq!(cell.content.len(), 2);
    assert!(matches!(cell.content[1], BlockElement::Table(_)));
}

#[test]
fn missing_content_xml_is_clean_error() {
    // ODF-style packaging: a ZIP without content.xml.
    let bytes = udf_with_entry("mimetype", b"application/vnd.oasis.opendocument.text");
    match parse(&bytes) {
        Err(UdfError::MissingContentXml) => {}
        other => panic!("expected MissingContentXml, got {other:?}"),
    }
}

#[test]
fn corrupt_zip_is_clean_error() {
    let bytes = b"this is definitely not a zip archive";
    assert!(matches!(parse(bytes), Err(UdfError::InvalidZip(_))));
}

#[test]
fn empty_bytes_is_clean_error() {
    assert!(parse(&[]).is_err());
}

#[test]
fn xml_without_template_root_is_clean_error() {
    let bytes = udf_with_content_xml("<?xml version=\"1.0\"?><notTemplate/>");
    assert!(matches!(parse(&bytes), Err(UdfError::MalformedDocument(_))));
}

#[test]
fn empty_doc_html_and_rtf_are_sane() {
    let doc = Document::default();
    let html = to_html(&doc);
    assert_wellformed_html(&html);
    let rtf = to_rtf(&doc);
    assert!(braces_balanced(&rtf), "RTF braces balanced");
}

#[test]
fn invalid_xml_and_invalid_utf8_are_clean_errors() {
    let bytes = udf_with_content_xml("<template><content>");
    assert!(matches!(parse(&bytes), Err(UdfError::InvalidXml(_))));
    let bytes = udf_with_entry("content.xml", &[0x3C, 0xFF, 0xFE]);
    match parse(&bytes) {
        Err(UdfError::InvalidXml(m)) => assert_eq!(m, "content.xml is not valid UTF-8"),
        other => panic!("expected InvalidXml, got {other:?}"),
    }
}

#[test]
fn missing_content_element_is_malformed() {
    let bytes = udf_with_content_xml("<template format_id=\"1.8\"><elements/></template>");
    match parse(&bytes) {
        Err(e) => {
            assert!(matches!(e, UdfError::MalformedDocument(_)));
            assert_eq!(e.message(), "malformed UDF document: missing <content> element");
        }
        Ok(_) => panic!("expected an error"),
    }
}

#[test]
fn conversions_carry_parse_errors_and_render_documents() {
    assert!(matches!(udf_to_html(b"nope"), Err(UdfError::InvalidZip(_))));
    assert!(matches!(udf_to_rtf(b"nope"), Err(UdfError::InvalidZip(_))));
    let xml = r#"<template format_id="1.8"><content><![CDATA[a{b}]]></content>
<elements resolver="hvl-default"><paragraph><content startOffset="0" length="4" /></paragraph></elements></template>"#;
    let bytes = udf_with_content_xml(xml);
    let html = udf_to_html(&bytes).unwrap();
    assert!(html.contains(">a{b}</span></p>"));
    assert_wellformed_html(&html);
    let rtf = udf_to_rtf(&bytes).unwrap();
    assert!(rtf.contains(" a\\{b\\}}\\par\n"));
    assert!(braces_balanced(&rtf));
}

#[test]
fn zero_width_spaces_are_cleaned_after_slicing() {
    // Offsets count the raw CDATA, zero-width spaces included; the text drops them.
    let xml = "<template format_id=\"1.8\"><content><![CDATA[ab\u{200B}\u{200B}cd]]></content>\
<elements><paragraph><content startOffset=\"1\" length=\"4\" /></paragraph></elements></template>";
    let doc = parse(&udf_with_content_xml(xml)).unwrap();
    let BlockElement::Paragraph(p) = &doc.body[0] else {
        panic!("paragraph");
    };
    let InlineElement::Text(t) = &p.runs[0] else {
        panic!("text run");
    };
    assert_eq!(t.text, "bc");
    assert_eq!(doc.format_id, "1.8");
    assert_eq!(doc.resolver, "hvl-default");
}
