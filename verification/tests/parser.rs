//! Parsing whole `content.xml` documents (wrapped in an in-memory archive).

use std::io::Write;

use udf_core::model::{Alignment, BlockElement, DocumentStyle, InlineElement, ListType, VerticalAlignment};
use udf_core::num::Num;
use udf_core::parse;

fn archive(xml: &str) -> Vec<u8> {
    let mut buf = Vec::new();
    {
        let mut w = zip::ZipWriter::new(std::io::Cursor::new(&mut buf));
        let opts: zip::write::SimpleFileOptions = zip::write::SimpleFileOptions::default();
        w.start_file("content.xml", opts).unwrap();
        w.write_all(xml.as_bytes()).unwrap();
        w.finish().unwrap();
    }
    buf
}

#[test]
fn page_format_styles_and_defaults() {
    let xml = r#"<template format_id="1.7"><content><![CDATA[]]></content>
<properties><pageFormat mediaSizeName="2" leftMargin="10.5" topMargin="x" paperOrientation="2"/></properties>
<styles><style name="s1" family="Arial" size="9"/></styles>
</template>"#;
    let doc = parse(&archive(xml)).unwrap();
    assert_eq!(doc.format_id, "1.7");
    assert_eq!(doc.pages.media_size_name, 2);
    assert_eq!(doc.pages.left_margin, Num { nanos: 10_500_000_000 });
    assert_eq!(doc.pages.top_margin, Num { nanos: 14_170_000_000 }); // unparsable -> default
    assert_eq!(doc.pages.paper_orientation, 2);
    assert_eq!(doc.styles.len(), 1);
    assert_eq!(doc.styles[0].name, "s1");
    assert_eq!(doc.styles[0].attributes.len(), 2);
    assert_eq!(doc.styles[0].attributes[0].name, "family");
    assert_eq!(doc.styles[0].attributes[1].value, "9");
    assert!(doc.body.is_empty() && doc.header.is_empty() && doc.footer.is_empty());
    assert_eq!(doc.resolver, "hvl-default");

    let plain = parse(&archive("<template><content/></template>")).unwrap();
    assert_eq!(plain.format_id, "1.8");
    assert_eq!(plain.styles.len(), DocumentStyle::defaults().len());
    assert_eq!(plain.styles[1].name, "hvl-default");
}

#[test]
fn paragraph_attributes_lists_and_tabs() {
    let xml = r#"<template><content><![CDATA[Hello]]></content><elements>
<paragraph Alignment="3" LeftIndent="12" SpaceAbove="6.5" LineSpacing="0.5" Numbered="true" NumberType="NUMBER_TYPE_ROMAN_BIG_DOT" ListLevel="2" ListId="" TabSet="36:0, 72.5:1;x;108">
<content startOffset="0" length="5" family="" size="" bold="TRUE" italic="true" foreground="-65536" background="12"/>
<tab/><image imageData="iVBOR" width="3"/>
</paragraph>
</elements></template>"#;
    let doc = parse(&archive(xml)).unwrap();
    let BlockElement::Paragraph(p) = &doc.body[0] else { panic!("paragraph") };
    assert_eq!(p.alignment, Alignment::Justify);
    assert_eq!(p.left_indent, Num::points(12));
    assert_eq!(p.space_before, Num { nanos: 6_500_000_000 });
    assert_eq!(p.line_spacing, Num { nanos: 500_000_000 });
    let list = p.list.as_ref().unwrap();
    assert_eq!(list.list_type, ListType::Numbered);
    assert_eq!(list.number_type.as_deref(), Some("NUMBER_TYPE_ROMAN_BIG_DOT"));
    assert_eq!(list.level, 2);
    assert_eq!(list.list_id, None); // empty ListId reads as none
    assert_eq!(p.tab_stops, vec![Num::points(36), Num { nanos: 108_000_000_000 }]);
    assert_eq!(p.runs.len(), 3);
    let InlineElement::Text(t) = &p.runs[0] else { panic!("text") };
    assert_eq!(t.text, "Hello");
    assert_eq!(t.style.font_family, ""); // present but empty is kept
    assert_eq!(t.style.font_size, Num::points(12)); // empty number falls back
    assert!(!t.style.bold); // only "true" is true
    assert!(t.style.italic);
    assert_eq!(t.style.color, -65536);
    assert_eq!(t.style.background_color, 12);
    assert!(matches!(p.runs[1], InlineElement::Tab(_)));
    let InlineElement::Image(img) = &p.runs[2] else { panic!("image") };
    assert_eq!(img.data, "iVBOR");
    assert_eq!(img.width, Num::points(3));
    assert_eq!(img.height, Num::points(0));
}

#[test]
fn exponent_sizes_are_read() {
    let xml = r#"<template><content><![CDATA[Hi]]></content><elements>
<paragraph LeftIndent="1.5E1"><content startOffset="0" length="2" size="1e1"/></paragraph>
</elements></template>"#;
    let doc = parse(&archive(xml)).unwrap();
    let BlockElement::Paragraph(p) = &doc.body[0] else { panic!("paragraph") };
    assert_eq!(p.left_indent, Num::points(15));
    let InlineElement::Text(t) = &p.runs[0] else { panic!("text") };
    assert_eq!(t.style.font_size, Num::points(10));
}

#[test]
fn attributes_are_found_by_local_name_as_roxmltree_does() {
    let xml = r#"<template xmlns:x="urn:x"><content><![CDATA[Hi]]></content><elements>
<paragraph><content x:bold="true" startOffset="0" length="2"/></paragraph>
</elements></template>"#;
    let tree = roxmltree::Document::parse(xml).unwrap();
    let run = tree
        .descendants()
        .find(|n| n.has_tag_name("content") && n.attribute("startOffset").is_some())
        .unwrap();
    assert_eq!(run.attribute("bold"), Some("true"));
    let doc = parse(&archive(xml)).unwrap();
    let BlockElement::Paragraph(p) = &doc.body[0] else { panic!("paragraph") };
    let InlineElement::Text(t) = &p.runs[0] else { panic!("text") };
    assert!(t.style.bold);
}

#[test]
fn empty_run_text_ends_the_paragraph() {
    let xml = "<template><content><![CDATA[ab\u{200B}c]]></content><elements>\
<paragraph><content startOffset=\"0\" length=\"1\" family=\"A\"/><content startOffset=\"2\" length=\"1\" family=\"B\"/>\
<content startOffset=\"3\" length=\"1\"/></paragraph><paragraph Bulleted=\"true\"><content startOffset=\"0\" length=\"1\"/></paragraph>\
</elements></template>";
    let doc = parse(&archive(xml)).unwrap();
    let BlockElement::Paragraph(p) = &doc.body[0] else { panic!("paragraph") };
    assert_eq!(p.runs.len(), 1); // the zero-width-space run is empty and stops the runs
    assert!(p.empty_content_style.is_none());
    // A list item's single `startOffset=0 length=1` run is text, not a placeholder.
    let BlockElement::Paragraph(q) = &doc.body[1] else { panic!("paragraph") };
    assert_eq!(q.runs.len(), 1);
    assert_eq!(q.list.as_ref().unwrap().list_type, ListType::Bulleted);
}

#[test]
fn tables_widths_heights_and_spans() {
    let xml = r#"<template><content><![CDATA[x]]></content><elements>
<table columnCount="3" columnSpans="50, 60" rowSpans="20,,30" align="right" borderSpec="5">
<row><cell colspan="2" align="bottom" fillColor="255"><paragraph/></cell><cell/></row>
<row columnSpans="70"><cell borderStyle="borderStyle-none"/><cell width="1"/></row>
</table>
<page-break/>
<header><paragraph/></header>
<footer pageNumber-spec="1" zeta="z" alpha="a" alpha2="b"><paragraph/><table/></footer>
</elements></template>"#;
    let doc = parse(&archive(xml)).unwrap();
    let BlockElement::Table(t) = &doc.body[0] else { panic!("table") };
    assert_eq!(t.columns, 3);
    assert_eq!(t.column_widths, vec![Num::points(50), Num::points(60), Num::points(100)]);
    assert_eq!(t.align.as_deref(), Some("right"));
    assert_eq!(t.border_spec, Some(5));
    assert_eq!(t.rows.len(), 2);
    assert_eq!(t.rows[0].height, Num::points(20));
    assert_eq!(t.rows[1].height, Num::points(30));
    let c0 = &t.rows[0].cells[0];
    assert_eq!(c0.width, Some(Num::points(200))); // colspan 2 -> 200, span 1
    assert_eq!(c0.colspan, 1);
    assert_eq!(c0.vertical_align, VerticalAlignment::Bottom);
    assert_eq!(c0.fill_color, 255);
    assert_eq!(c0.border_spec, 5); // inherited from the table
    assert_eq!(t.rows[0].cells[1].width, Some(Num::points(60)));
    assert_eq!(t.rows[1].cells[0].width, Some(Num::points(70)));
    assert_eq!(t.rows[1].cells[0].border.style, "borderStyle-none");
    assert_eq!(t.rows[1].cells[1].width, Some(Num::points(100)));
    assert!(matches!(doc.body[1], BlockElement::PageBreak));
    assert_eq!(doc.header.len(), 1);
    assert_eq!(doc.footer.len(), 2);
    let fp = doc.footer_page_number.as_ref().unwrap();
    assert_eq!(fp.spec, "1");
    assert_eq!(fp.font_face, "Times New Roman");
    assert_eq!(fp.font_size, Num::points(11));
    let names: Vec<&str> = fp.extra_attributes.iter().map(|a| a.name.as_str()).collect();
    assert_eq!(names, vec!["alpha", "alpha2", "zeta"]);
}

#[test]
fn footer_without_page_number_settings_has_none() {
    let xml = r#"<template><content/><elements><footer other="1"><paragraph/></footer></elements></template>"#;
    let doc = parse(&archive(xml)).unwrap();
    assert!(doc.footer_page_number.is_none());
    let xml = r#"<template><content/><elements><footer color-boundary="1"/></elements></template>"#;
    let doc = parse(&archive(xml)).unwrap();
    let fp = doc.footer_page_number.as_ref().unwrap();
    assert_eq!(fp.extra_attributes.len(), 1);
    assert_eq!(fp.extra_attributes[0].name, "color-boundary");
}
