use udf_core::model::{
    BlockElement, Document, ImageRun, InlineElement, ListProperties, ListType, Paragraph, Table,
    TableCell, TableRow, TextRun, TextStyle,
};
use udf_core::num::Num;
use udf_core::rtf::{escape_rtf, picture_group, to_rtf};

fn doc_with(body: Vec<BlockElement>) -> Document {
    Document { body, ..Document::default() }
}

fn para(text: &str) -> BlockElement {
    BlockElement::Paragraph(Paragraph {
        runs: vec![InlineElement::Text(TextRun {
            text: text.to_string(),
            style: TextStyle::default(),
        })],
        ..Paragraph::default()
    })
}

fn image_para(data: &str) -> BlockElement {
    BlockElement::Paragraph(Paragraph {
        runs: vec![InlineElement::Image(ImageRun {
            data: data.to_string(),
            width: Num::points(10),
            height: Num::points(20),
        })],
        ..Paragraph::default()
    })
}

fn braces_balanced(s: &str) -> bool {
    let mut depth = 0i32;
    let mut prev_bs = false;
    for c in s.chars() {
        match c {
            '{' if !prev_bs => depth += 1,
            '}' if !prev_bs => {
                depth -= 1;
                if depth < 0 {
                    return false;
                }
            }
            _ => {}
        }
        prev_bs = c == '\\' && !prev_bs;
    }
    depth == 0
}

#[test]
fn header_and_balance() {
    let rtf = to_rtf(&doc_with(vec![para("Hello")]));
    assert!(rtf.starts_with("{\\rtf1\\ansi"));
    assert!(rtf.contains("\\fonttbl"));
    assert!(rtf.contains("Hello"));
    assert!(braces_balanced(&rtf));
}

#[test]
fn non_ascii_is_unicode_escaped() {
    // 'ş' (U+015F) -> \u351?
    let rtf = to_rtf(&doc_with(vec![para("şç")]));
    assert!(rtf.contains("\\u351?"));
    assert!(braces_balanced(&rtf));
}

#[test]
fn braces_in_text_are_escaped() {
    let rtf = to_rtf(&doc_with(vec![para("a{b}c")]));
    assert!(rtf.contains("a\\{b\\}c"));
    assert!(braces_balanced(&rtf));
}

#[test]
fn bold_run_emits_b() {
    let style = TextStyle { bold: true, ..TextStyle::default() };
    let doc = doc_with(vec![BlockElement::Paragraph(Paragraph {
        runs: vec![InlineElement::Text(TextRun { text: "x".to_string(), style })],
        ..Paragraph::default()
    })]);
    let rtf = to_rtf(&doc);
    assert!(rtf.contains("\\b"));
    assert!(braces_balanced(&rtf));
}

#[test]
fn table_emits_row_structure() {
    let cell = TableCell { content: vec![para("c")], ..TableCell::default() };
    let table = Table {
        columns: 1,
        column_widths: vec![Num::points(100)],
        rows: vec![TableRow { cells: vec![cell], ..TableRow::default() }],
        ..Table::default()
    };
    let rtf = to_rtf(&doc_with(vec![BlockElement::Table(table)]));
    assert!(rtf.contains("\\trowd"));
    assert!(rtf.contains("\\cell"));
    assert!(rtf.contains("\\row"));
    assert!(braces_balanced(&rtf));
}

#[test]
fn empty_document_is_exact() {
    assert_eq!(
        to_rtf(&Document::default()),
        "{\\rtf1\\ansi\\ansicpg1254\\deff0{\\fonttbl{\\f0\\fnil Times New Roman;}}{\\colortbl;}\\f0\\fs24\n}"
    );
}

#[test]
fn plain_paragraph_is_exact() {
    let rtf = to_rtf(&doc_with(vec![para("Hi")]));
    assert_eq!(
        rtf,
        "{\\rtf1\\ansi\\ansicpg1254\\deff0{\\fonttbl{\\f0\\fnil Times New Roman;}}\
{\\colortbl;\\red0\\green0\\blue0;}\\f0\\fs24\n\\pard\\ql {\\f0\\fs24\\cf1 Hi}\\par\n}"
    );
}

#[test]
fn fonts_and_colours_are_registered_once_in_order() {
    let red = TextStyle {
        font_family: "Arial".to_string(),
        color: 0xFFFF0000u32 as i32,
        background_color: 0xFF00FF00u32 as i32,
        ..TextStyle::default()
    };
    let run = |s: &TextStyle| {
        InlineElement::Text(TextRun { text: "x".to_string(), style: TextStyle { font_family: s.font_family.clone(), ..*s } })
    };
    let p = Paragraph { runs: vec![run(&red), run(&red)], ..Paragraph::default() };
    let rtf = to_rtf(&doc_with(vec![BlockElement::Paragraph(p)]));
    assert!(rtf.contains("{\\fonttbl{\\f0\\fnil Times New Roman;}{\\f1\\fnil Arial;}}"));
    assert!(rtf.contains("{\\colortbl;\\red255\\green0\\blue0;\\red0\\green255\\blue0;}"));
    assert!(rtf.contains("{\\f1\\fs24\\cf1\\highlight2 x}{\\f1\\fs24\\cf1\\highlight2 x}"));
}

#[test]
fn numbered_list_markers_count_per_list() {
    let item = |id: i32| {
        BlockElement::Paragraph(Paragraph {
            list: Some(ListProperties {
                list_type: ListType::Numbered,
                number_type: None,
                bullet_type: None,
                level: 0,
                list_id: Some(id),
            }),
            ..Paragraph::default()
        })
    };
    let rtf = to_rtf(&doc_with(vec![item(1), item(1), item(2), item(1)]));
    let markers: Vec<&str> = rtf.matches(".\\tab ").collect();
    assert_eq!(markers.len(), 4);
    assert!(rtf.contains("\\pard\\ql 1.\\tab \\par\n\\pard\\ql 2.\\tab \\par\n\\pard\\ql 1.\\tab \\par\n\\pard\\ql 3.\\tab \\par\n"));
}

#[test]
fn spacing_and_indents_in_twips() {
    let p = Paragraph {
        space_before: Num::points(6),
        space_after: Num { nanos: 2_500_000_000 },
        left_indent: Num::points(-3),
        right_indent: Num::points(1),
        first_line_indent: Num::points(2),
        ..Paragraph::default()
    };
    let rtf = to_rtf(&doc_with(vec![BlockElement::Paragraph(p)]));
    assert!(rtf.contains("\\pard\\ql\\sb120\\sa50\\li-60\\ri20\\fi40 \\par\n"));
}

#[test]
fn png_image_is_hex_encoded() {
    let rtf = to_rtf(&doc_with(vec![image_para("iVBORw0K\n GgoA")]));
    assert!(rtf.contains("{\\pict\\pngblip\\picwgoal200\\pichgoal400 89504e470d0a1a0a00}"));
    assert!(braces_balanced(&rtf));
}

#[test]
fn jpeg_signature_selects_jpegblip() {
    let rtf = to_rtf(&doc_with(vec![image_para("/9j/4AAQ")]));
    assert!(rtf.contains("{\\pict\\jpegblip\\picwgoal200\\pichgoal400 ffd8ffe00010}"));
}

#[test]
fn undecodable_image_is_skipped() {
    let rtf = to_rtf(&doc_with(vec![image_para("not base64!")]));
    assert!(!rtf.contains("\\pict"));
    assert!(braces_balanced(&rtf));
}

#[test]
fn picture_group_of_decoded_bytes() {
    assert_eq!(picture_group(&[], Num::points(1), Num::points(1)), "");
    assert_eq!(
        picture_group(&[0xFF, 0xD8, 0xFF, 0x01], Num { nanos: 1_500_000_000 }, Num::points(-2)),
        "{\\pict\\jpegblip\\picwgoal30\\pichgoal-40 ffd8ff01}"
    );
    assert_eq!(
        picture_group(&[0xFF, 0xD8], Num::points(0), Num::points(0)),
        "{\\pict\\pngblip\\picwgoal0\\pichgoal0 ffd8}"
    );
}

#[test]
fn escape_rtf_cases() {
    assert_eq!(escape_rtf("a\\b{c}d\ne\tf"), "a\\\\b\\{c\\}d\\par\ne\\tab f");
    // U+1D6FC is a surrogate pair D835 DEFC, written as signed 16-bit numbers.
    assert_eq!(escape_rtf("𝛼"), "\\u-10187?\\u-8452?");
    assert_eq!(escape_rtf("é"), "\\u233?");
    assert_eq!(escape_rtf("\u{FFFF}"), "\\u-1?");
}

#[test]
fn table_cells_get_boundaries_and_borders() {
    let cell = |w: Option<i32>| TableCell {
        width: w.map(Num::points),
        border_spec: 5,
        border_width: Num::points(1),
        content: vec![para("c")],
        ..TableCell::default()
    };
    let mut solid = cell(None);
    solid.border.style = "borderStyle-solid".to_string();
    let table = Table {
        rows: vec![TableRow { cells: vec![solid, cell(Some(300))], ..TableRow::default() }],
        ..Table::default()
    };
    let rtf = to_rtf(&doc_with(vec![BlockElement::Table(table)]));
    assert!(rtf.contains(
        "\\trowd\\trgaph108\\clbrdrt\\brdrs\\brdrw20\\brdrcf1\\clbrdrb\\brdrs\\brdrw20\\brdrcf1\\cellx2250"
    ));
    assert!(rtf.contains("\\cellx9000\\pard\\intbl\\ql {"));
    assert!(rtf.contains("\\cell\\row\n\\pard\n"));
    assert!(braces_balanced(&rtf));
}

#[test]
fn nested_table_is_flattened_into_the_cell() {
    let inner = Table {
        rows: vec![TableRow {
            cells: vec![TableCell { content: vec![para("in"), BlockElement::PageBreak], ..TableCell::default() }],
            ..TableRow::default()
        }],
        ..Table::default()
    };
    let outer = Table {
        rows: vec![TableRow {
            cells: vec![
                TableCell { content: vec![BlockElement::Table(inner)], ..TableCell::default() },
                TableCell::default(),
            ],
            ..TableRow::default()
        }],
        ..Table::default()
    };
    let rtf = to_rtf(&doc_with(vec![BlockElement::Table(outer)]));
    assert!(rtf.contains("\\pard\\intbl {\\f0\\fs24\\cf1 in}\\cell\\pard\\intbl \\cell\\row\n"));
    assert!(braces_balanced(&rtf));
}

#[test]
fn rtf_of_a_busy_document_is_balanced() {
    let tricky = "}{\\ \\\\{ 𝛼 şç \n\t }";
    let mut body = vec![para(tricky), BlockElement::PageBreak, image_para("iVBORw0KGgo=")];
    body.push(BlockElement::Table(Table {
        rows: vec![TableRow {
            cells: vec![TableCell { content: vec![para(tricky)], ..TableCell::default() }],
            ..TableRow::default()
        }],
        ..Table::default()
    }));
    let doc = Document {
        header: vec![para("{head")],
        body,
        footer: vec![para("foot}")],
        ..Document::default()
    };
    assert!(braces_balanced(&to_rtf(&doc)));
}

#[test]
fn rtf_is_one_group() {
    let rtf = to_rtf(&doc_with(vec![para("a}{b"), para("\\"), BlockElement::PageBreak]));
    let chars: Vec<char> = rtf.chars().collect();
    let mut depth = 0i32;
    let mut prev_bs = false;
    for (k, c) in chars.iter().enumerate() {
        match c {
            '{' if !prev_bs => depth += 1,
            '}' if !prev_bs => depth -= 1,
            _ => {}
        }
        prev_bs = *c == '\\' && !prev_bs;
        if k + 1 < chars.len() {
            assert!(depth >= 1, "prefix of length {} leaves the document group", k + 1);
        }
    }
    assert_eq!(depth, 0);
}
