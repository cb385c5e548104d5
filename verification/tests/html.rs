use udf_core::html::{
    escape_text, image_tag, number_marker, span_style, to_alpha, to_html, to_roman, HtmlWriter,
};
use udf_core::model::{
    BlockElement, Document, ImageRun, InlineElement, ListProperties, ListType, PageFormat,
    Paragraph, Table, TableCell, TableRow, TextRun, TextStyle,
};
use udf_core::num::Num;

fn text_para(text: &str) -> Paragraph {
    Paragraph {
        runs: vec![InlineElement::Text(TextRun {
            text: text.to_string(),
            style: TextStyle::default(),
        })],
        ..Paragraph::default()
    }
}

fn numbered(id: Option<i32>) -> ListProperties {
    ListProperties {
        list_type: ListType::Numbered,
        number_type: Some("NUMBER_TYPE_NUMBER_DOT".to_string()),
        bullet_type: None,
        level: 0,
        list_id: id,
    }
}

#[test]
fn roman_and_alpha_markers() {
    assert_eq!(to_roman(4, true), "IV");
    assert_eq!(to_roman(9, false), "ix");
    assert_eq!(to_roman(2024, true), "MMXXIV");
    assert_eq!(to_alpha(1, true), "A");
    assert_eq!(to_alpha(26, false), "z");
    assert_eq!(to_alpha(27, false), "aa");
}

#[test]
fn number_marker_types() {
    assert_eq!(number_marker(Some("NUMBER_TYPE_NUMBER_DOT"), 3), "3.");
    assert_eq!(number_marker(Some("NUMBER_TYPE_NUMBER_PARANTHESE"), 3), "3)");
    assert_eq!(number_marker(Some("NUMBER_TYPE_ROMAN_BIG_DOT"), 4), "IV.");
    assert_eq!(number_marker(Some("NUMBER_TYPE_CHAR_SMALL_PARANTHESE"), 1), "a)");
    assert_eq!(number_marker(None, 7), "7.");
}

#[test]
fn numbered_counter_keyed_by_list_id() {
    let mut w = HtmlWriter::default();
    let list = |id: Option<i32>| ListProperties {
        list_type: ListType::Numbered,
        number_type: Some("NUMBER_TYPE_NUMBER_DOT".to_string()),
        bullet_type: None,
        level: 0,
        list_id: id,
    };
    assert_eq!(w.list_marker(&list(Some(5))), "1.");
    assert_eq!(w.list_marker(&list(Some(5))), "2.");
    assert_eq!(w.list_marker(&list(Some(9))), "1."); // different list id restarts
    assert_eq!(w.list_marker(&list(Some(5))), "3.");
}

#[test]
fn text_is_escaped() {
    assert_eq!(escape_text("a<b>&c"), "a&lt;b&gt;&amp;c");
}

#[test]
fn span_style_emits_only_non_defaults() {
    let mut s = TextStyle::default();
    // Default style: black text, white background, TNR 12 -> family and size only.
    let style = span_style(&s);
    assert!(style.contains("font-family:"));
    assert!(style.contains("font-size:12pt;"));
    assert!(!style.contains("color:"));
    assert!(!style.contains("background-color:"));
    s.bold = true;
    s.color = 0x00FF0000; // red-ish (non-default)
    let style = span_style(&s);
    assert!(style.contains("font-weight:bold;"));
    assert!(style.contains("color:#ff0000;"));
}

#[test]
fn image_tag_strips_whitespace_and_detects_png() {
    let img = ImageRun {
        data: "iVBOR\n  w0KG\tgo".to_string(),
        width: Num::points(10),
        height: Num::points(20),
    };
    let tag = image_tag(&img);
    assert!(tag.contains("data:image/png;base64,iVBORw0KGgo"));
    assert!(tag.contains("width:10pt;"));
    assert!(tag.contains("height:20pt;"));
}

#[test]
fn image_tag_detects_jpeg_and_gif_and_skips_empty() {
    let mut img = ImageRun { data: " /9j/4AAQ ".to_string(), width: Num::points(0), height: Num::points(0) };
    assert_eq!(image_tag(&img), "<img alt=\"\" style=\"\" src=\"data:image/jpeg;base64,/9j/4AAQ\"/>");
    img.data = "R0lGODlh".to_string();
    assert!(image_tag(&img).contains("data:image/gif;base64,R0lGODlh"));
    img.data = " \n\t ".to_string();
    assert_eq!(image_tag(&img), "");
}

#[test]
fn span_style_full_decoration_and_quoted_family() {
    let s = TextStyle {
        font_family: "O'Neil\\Sans".to_string(),
        font_size: Num { nanos: 10_250_000_000 },
        bold: false,
        italic: true,
        underline: true,
        strikethrough: true,
        color: -16777216,
        background_color: 0xFFFFFF00u32 as i32,
    };
    assert_eq!(
        span_style(&s),
        "font-family:'O\\'Neil\\\\Sans';font-size:10.25pt;font-style:italic;\
text-decoration:underline line-through;background-color:#ffff00;"
    );
}

#[test]
fn double_quote_in_family_cannot_close_the_style_attribute() {
    let s = TextStyle {
        font_family: "Say \"Hi\"".to_string(),
        font_size: Num::points(12),
        bold: false,
        italic: false,
        underline: false,
        strikethrough: false,
        color: 0,
        background_color: 0,
    };
    let style = span_style(&s);
    assert!(style.starts_with("font-family:'Say \\22 Hi\\22 ';"));
    assert!(!style.contains('"'));
}

#[test]
fn empty_document_html_shape() {
    let html = to_html(&Document::default());
    assert!(html.starts_with("<!doctype html><html lang=\"tr\"><head><meta charset=\"utf-8\"/>"));
    assert!(html.contains(
        "<div class=\"udf-page\" style=\"width:595.28pt;min-height:841.89pt;padding:14.17pt 28.35pt 14.17pt 42.52pt;\">"
    ));
    assert!(html.ends_with("</div></body></html>"));
}

#[test]
fn landscape_swaps_page_box() {
    let doc = Document {
        pages: PageFormat { paper_orientation: 2, ..PageFormat::default() },
        ..Document::default()
    };
    assert!(to_html(&doc).contains("width:841.89pt;min-height:595.28pt;"));
}

#[test]
fn paragraph_styles_and_blank_line() {
    let p = Paragraph {
        line_spacing: Num { nanos: 500_000_000 },
        space_before: Num::points(6),
        first_line_indent: Num { nanos: -12_250_000_000 },
        ..Paragraph::default()
    };
    let html = to_html(&Document { body: vec![BlockElement::Paragraph(p)], ..Document::default() });
    assert!(html.contains(
        "<p style=\"text-align:left;margin-top:6pt;line-height:1.5;text-indent:-12.25pt;\"><br/></p>"
    ));
}

#[test]
fn list_items_number_across_paragraphs() {
    let mut a = text_para("one");
    a.list = Some(numbered(Some(3)));
    let mut b = text_para("two");
    b.list = Some(numbered(Some(3)));
    b.list.as_mut().unwrap().level = 1;
    let html = to_html(&Document {
        body: vec![BlockElement::Paragraph(a), BlockElement::Paragraph(b)],
        ..Document::default()
    });
    assert!(html.contains("margin-left:18pt;text-indent:-18pt;\"><span class=\"udf-marker\">1.</span>"));
    assert!(html.contains("margin-left:36pt;text-indent:-18pt;\"><span class=\"udf-marker\">2.</span>"));
}

#[test]
fn table_cells_take_their_width_share() {
    let cell = |w: i32| TableCell {
        width: Some(Num::points(w)),
        content: vec![BlockElement::Paragraph(text_para("x"))],
        ..TableCell::default()
    };
    let table = Table {
        align: Some("center".to_string()),
        rows: vec![TableRow { cells: vec![cell(100), cell(300)], ..TableRow::default() }],
        ..Table::default()
    };
    let html = to_html(&Document { body: vec![BlockElement::Table(table)], ..Document::default() });
    assert!(html.contains("<table class=\"udf-table\" style=\"margin-left:auto;margin-right:auto;\"><tbody><tr>"));
    assert!(html.contains("width:25%;"));
    assert!(html.contains("width:75%;"));
    assert!(html.contains("border-top:"));
}

#[test]
fn page_break_renders_divider() {
    let html = to_html(&Document { body: vec![BlockElement::PageBreak], ..Document::default() });
    assert!(html.contains("<div class=\"udf-pagebreak\">──────── Sayfa Sonu ────────</div>"));
}

#[test]
fn escaped_text_never_holds_angle_brackets() {
    let e = escape_text("<<a>>&<b c=\"d\">");
    assert!(!e.contains('<') && !e.contains('>'));
    assert_eq!(e, "&lt;&lt;a&gt;&gt;&amp;&lt;b c=\"d\"&gt;");
}
