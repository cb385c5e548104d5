//! The document parser: `content.xml` nodes to the [`Document`] model.
//!
//! Walks `<elements>` (header, body and footer in document order), rune-slices the CDATA
//! by each element's `startOffset` and `length`, and builds the document. Run styling is
//! read from each run element's font attributes with [`TextStyle`] defaults as fallbacks;
//! named `<styles>` are kept verbatim, not resolved into runs.

use vstd::prelude::*;
use crate::model::{
    spec_alignment_from_attr, spec_default_cell, spec_default_page_format, spec_default_row,
    spec_default_styles, spec_default_table, spec_default_text_style, spec_vertical_from_attr,
    ListType, PageFormat, SpecAttr, SpecBlock, SpecBorder, SpecCell, SpecDocument,
    SpecFooterPageNumber, SpecInline, SpecList, SpecParagraph, SpecRow, SpecStyle, SpecTable,
    SpecTextStyle, TextStyle, opt_str_view, ImageRun, InlineElement, TextRun, TabRun, Paragraph, ListProperties,
    Alignment, VerticalAlignment, BlockElement, Table, TableRow, TableCell, BorderStyle,
    FooterPageNumber, StyleAttribute, DocumentStyle, Document, view_block, view_blocks,
    view_rows, view_cells, view_row, view_cell, view_table,
};
use crate::num::{find_char, find_char_from, parse_num, saturate_i64, saturate_i64_exec, spec_parse_num, Num};
use crate::rune::{rune_substring_clamped, spec_rune_substring_clamped, string_of_range};
use crate::text::{
    chars_of, remove_char, utf8_text, seq_lt, split_either, split_either_exec, str_eq, str_lt, trim_exec, trimmed,
};
use crate::xml::{
    attr_lookup, element_children, named_children, spec_attr_bool, spec_attr_i32,
    spec_attr_i32_opt, spec_attr_i64, spec_attr_num, spec_attr_num_opt, spec_attr_opt,
    spec_attr_str, spec_first_child_element, spec_node_text, SpecXmlNode, XmlAttribute, XmlNode, nodes_view,
    attr_bool, attr_i32, attr_i32_opt, attr_i64, attr_f64, attr_f64_opt, attr_opt, attr_present,
    attr_str, attr_str_opt, child_elements, element_child_count, element_children_exec,
    first_child_element, node_text, parse_xml, xml_document_nodes,
};
use crate::zip::{archive_entry, extract_content_xml, spec_archive_error};
use crate::UdfError;
use vstd::utf8::{decode_utf8, valid_utf8};
use crate::SpecUdfError;

verus! {

// ---------------------------------------------------------------------------
// Number lists
// ---------------------------------------------------------------------------

/// The numbers of a comma-separated list: each piece trimmed, unparsable pieces dropped.
pub open spec fn csv_pieces(pieces: Seq<Seq<char>>) -> Seq<Num>
    decreases pieces.len(),
{
    if pieces.len() == 0 {
        Seq::empty()
    } else {
        let rest = csv_pieces(pieces.drop_first());
        match spec_parse_num(trimmed(pieces[0])) {
            Some(v) => seq![v] + rest,
            None => rest,
        }
    }
}

pub open spec fn spec_csv(s: Seq<char>) -> Seq<Num> {
    csv_pieces(split_either(s, ',', ','))
}

/// The text of a tab stop before its first `:`.
pub open spec fn before_colon(p: Seq<char>) -> Seq<char> {
    match find_char(p, ':') {
        Some(i) => p.take(i),
        None => p,
    }
}

pub open spec fn tab_pieces(pieces: Seq<Seq<char>>) -> Seq<Num>
    decreases pieces.len(),
{
    if pieces.len() == 0 {
        Seq::empty()
    } else {
        let rest = tab_pieces(pieces.drop_first());
        match spec_parse_num(before_colon(pieces[0])) {
            Some(v) => seq![v] + rest,
            None => rest,
        }
    }
}

/// Tab stops from a `TabSet` attribute: pieces split on `,` and `;`, each read up to its
/// first `:`; a missing or empty attribute has none.
pub open spec fn spec_tab_stops(v: Option<Seq<char>>) -> Seq<Num> {
    match v {
        Some(s) => if s.len() > 0 {
            tab_pieces(split_either(s, ',', ';'))
        } else {
            Seq::empty()
        },
        None => Seq::empty(),
    }
}

// ---------------------------------------------------------------------------
// Runs and paragraphs
// ---------------------------------------------------------------------------

/// Character styling read from a run element; missing attributes take the defaults.
pub open spec fn spec_font_style(n: SpecXmlNode) -> SpecTextStyle {
    let d = spec_default_text_style();
    SpecTextStyle {
        font_family: spec_attr_str(n, "family"@, d.font_family),
        font_size: spec_attr_num(n, "size"@, d.font_size),
        bold: spec_attr_bool(n, "bold"@),
        italic: spec_attr_bool(n, "italic"@),
        underline: spec_attr_bool(n, "underline"@),
        strikethrough: spec_attr_bool(n, "strikethrough"@),
        color: spec_attr_i32(n, "foreground"@, d.color),
        background_color: spec_attr_i32(n, "background"@, d.background_color),
    }
}

/// Each on/off flag of a run's style is read from its own attribute alone: the run is
/// bold, italic, underlined or struck through exactly when the element's `bold`,
/// `italic`, `underline` or `strikethrough` attribute (the first of that name) is the
/// text `true`, whatever the other attributes hold.
pub proof fn lemma_run_flags_follow_their_attributes(n: SpecXmlNode)
    ensures
        spec_font_style(n).bold == (attr_lookup(n.attributes, "bold"@) == Some("true"@)),
        spec_font_style(n).italic == (attr_lookup(n.attributes, "italic"@) == Some("true"@)),
        spec_font_style(n).underline == (attr_lookup(n.attributes, "underline"@) == Some(
            "true"@,
        )),
        spec_font_style(n).strikethrough == (attr_lookup(n.attributes, "strikethrough"@) == Some(
            "true"@,
        )),
{
}

/// The zero-width space that marks an empty paragraph.
pub open spec fn zwsp() -> char {
    '\u{200B}'
}

/// The text of a `<content>` run: the raw CDATA sliced by rune offsets (leniently), then
/// stripped of zero-width spaces.
pub open spec fn spec_run_text(n: SpecXmlNode, cdata: Seq<char>) -> Seq<char> {
    spec_rune_substring_clamped(
        cdata,
        spec_attr_i64(n, "startOffset"@, 0) as int,
        spec_attr_i64(n, "length"@, 0) as int,
    ).filter(|c: char| c != zwsp())
}

/// Run text is cleaned: it never holds a zero-width space, whatever the CDATA holds.
pub proof fn lemma_run_text_is_clean(n: SpecXmlNode, cdata: Seq<char>)
    ensures
        forall|i: int|
            0 <= i < spec_run_text(n, cdata).len() ==> #[trigger] spec_run_text(n, cdata)[i] != zwsp(),
{
    let raw = spec_rune_substring_clamped(
        cdata,
        spec_attr_i64(n, "startOffset"@, 0) as int,
        spec_attr_i64(n, "length"@, 0) as int,
    );
    let pred = |c: char| c != zwsp();
    assert forall|i: int| 0 <= i < spec_run_text(n, cdata).len() implies #[trigger] spec_run_text(
        n,
        cdata,
    )[i] != zwsp() by {
        raw.lemma_filter_pred(pred, i);
    }
}

pub open spec fn spec_image_run(n: SpecXmlNode) -> SpecInline {
    SpecInline::Image {
        data: spec_attr_str(n, "imageData"@, Seq::empty()),
        width: spec_attr_num(n, "width"@, Num { nanos: 0 }),
        height: spec_attr_num(n, "height"@, Num { nanos: 0 }),
    }
}

/// The runs of a paragraph from its element children `kids` (from some point on), and the
/// style of the empty-content placeholder that stopped them, if one did. A `<content>` is
/// a placeholder when it is `startOffset=0 length=1`, the paragraph's only element child,
/// and the paragraph is not a list item; a placeholder or a run whose cleaned text is
/// empty ends the paragraph's runs.
pub open spec fn spec_runs(
    nodes: Seq<SpecXmlNode>,
    cdata: Seq<char>,
    kids: Seq<int>,
    child_count: int,
    has_list_attr: bool,
) -> (Seq<SpecInline>, Option<SpecTextStyle>)
    decreases kids.len(),
{
    if kids.len() == 0 {
        (Seq::empty(), None)
    } else {
        let n = nodes[kids[0]];
        let rest = spec_runs(nodes, cdata, kids.drop_first(), child_count, has_list_attr);
        if n.name == "content"@ {
            let text = spec_run_text(n, cdata);
            let style = spec_font_style(n);
            let placeholder = spec_attr_i64(n, "startOffset"@, -1i64) == 0 && spec_attr_i64(
                n,
                "length"@,
                -1i64,
            ) == 1 && child_count == 1 && !has_list_attr;
            if placeholder || text.len() == 0 {
                (Seq::empty(), Some(style))
            } else {
                (seq![SpecInline::Text { text, style }] + rest.0, rest.1)
            }
        } else if n.name == "image"@ {
            (seq![spec_image_run(n)] + rest.0, rest.1)
        } else if n.name == "tab"@ {
            (seq![SpecInline::Tab { style: spec_font_style(n) }] + rest.0, rest.1)
        } else {
            rest
        }
    }
}

pub open spec fn spec_list(n: SpecXmlNode) -> Option<SpecList> {
    let numbered = spec_attr_bool(n, "Numbered"@);
    let bulleted = spec_attr_bool(n, "Bulleted"@);
    if numbered || bulleted {
        Some(
            SpecList {
                list_type: if numbered { ListType::Numbered } else { ListType::Bulleted },
                number_type: spec_attr_opt(n, "NumberType"@),
                bullet_type: spec_attr_opt(n, "BulletType"@),
                level: spec_attr_i32(n, "ListLevel"@, 0),
                list_id: spec_attr_i32_opt(n, "ListId"@),
            },
        )
    } else {
        None
    }
}

/// A `<paragraph>` element.
pub open spec fn spec_paragraph(nodes: Seq<SpecXmlNode>, cdata: Seq<char>, e: int) -> SpecParagraph {
    let n = nodes[e];
    let kids = element_children(nodes, e);
    let has_list_attr = spec_attr_opt(n, "Bulleted"@) is Some || spec_attr_opt(n, "Numbered"@) is Some;
    let (runs, placeholder) = spec_runs(nodes, cdata, kids, kids.len() as int, has_list_attr);
    SpecParagraph {
        alignment: spec_alignment_from_attr(spec_attr_opt(n, "Alignment"@)),
        left_indent: spec_attr_num(n, "LeftIndent"@, Num { nanos: 0 }),
        right_indent: spec_attr_num(n, "RightIndent"@, Num { nanos: 0 }),
        first_line_indent: spec_attr_num(n, "FirstLineIndent"@, Num { nanos: 0 }),
        line_spacing: spec_attr_num(n, "LineSpacing"@, Num { nanos: 0 }),
        space_before: spec_attr_num(n, "SpaceAbove"@, Num { nanos: 0 }),
        space_after: spec_attr_num(n, "SpaceBelow"@, Num { nanos: 0 }),
        runs,
        list: spec_list(n),
        tab_stops: spec_tab_stops(spec_attr_opt(n, "TabSet"@)),
        empty_content_style: if runs.len() == 0 { placeholder } else { None },
    }
}

// ---------------------------------------------------------------------------
// Tables
// ---------------------------------------------------------------------------

/// Border settings a table passes down to cells that do not set their own.
pub struct SpecInherited {
    pub name: Option<Seq<char>>,
    pub style: Option<Seq<char>>,
    pub width: Option<Num>,
    pub color: Option<i32>,
    pub spec: Option<i32>,
}

pub open spec fn spec_inherited(n: SpecXmlNode) -> SpecInherited {
    SpecInherited {
        name: spec_attr_opt(n, "border"@),
        style: spec_attr_opt(n, "borderStyle"@),
        width: spec_attr_num_opt(n, "borderWidth"@),
        color: spec_attr_i32_opt(n, "borderColor"@),
        spec: spec_attr_i32_opt(n, "borderSpec"@),
    }
}

pub open spec fn spec_border_style(n: SpecXmlNode) -> SpecBorder {
    SpecBorder {
        name: spec_attr_str(n, "border"@, "borderCell"@),
        style: spec_attr_str(n, "borderStyle"@, "borderStyle-solid"@),
    }
}

pub open spec fn or_else<T>(a: Option<T>, b: Option<T>, d: T) -> T {
    match a {
        Some(x) => x,
        None => match b {
            Some(y) => y,
            None => d,
        },
    }
}

/// The column count a table lays out: its `columnCount` (a negative count as 0) or the
/// number of its column spans, whichever is larger.
pub open spec fn spec_columns(count: i32, spans: int) -> int {
    let c = if count < 0 { 0 } else { count as int };
    if c > spans { c } else { spans }
}

/// The table's column widths: its column spans, padded with 100 up to the column count.
pub open spec fn spec_column_widths(spans: Seq<Num>, cols: int) -> Seq<Num> {
    spans + Seq::new((cols - spans.len()) as nat, |i: int| Num { nanos: 100_000_000_000 })
}

pub open spec fn width_at(ws: Seq<Num>, i: int) -> Num {
    if 0 <= i < ws.len() {
        ws[i]
    } else {
        Num { nanos: 100_000_000_000 }
    }
}

/// A `<table>` element.
pub open spec fn spec_table(nodes: Seq<SpecXmlNode>, cdata: Seq<char>, e: int) -> SpecTable
    decreases nodes.len() - e + 1, 0int,
{
    if 0 <= e < nodes.len() {
        let n = nodes[e];
        let inh = spec_inherited(n);
        let spans = spec_csv(spec_attr_str(n, "columnSpans"@, Seq::empty()));
        let cols = spec_columns(spec_attr_i32(n, "columnCount"@, 0), spans.len() as int);
        let widths = spec_column_widths(spans, cols);
        let heights = spec_csv(spec_attr_str(n, "rowSpans"@, Seq::empty()));
        SpecTable {
            name: spec_attr_str(n, "tableName"@, "Sabit"@),
            columns: (if cols > 1 { cols } else { 1 }) as i32,
            column_widths: widths,
            border: spec_border_style(n),
            rows: spec_rows(nodes, cdata, e, named_children(nodes, e, "row"@), inh, widths, heights, 0),
            align: spec_attr_opt(n, "align"@),
            width: spec_attr_opt(n, "width"@),
            cellpadding: spec_attr_num_opt(n, "cellpadding"@),
            cellspacing: spec_attr_num_opt(n, "cellspacing"@),
            border_width: inh.width,
            border_color: inh.color,
            border_spec: inh.spec,
        }
    } else {
        spec_default_table()
    }
}

/// The rows of a table from its `<row>` children `kids`, the first being row number `i`;
/// row `i` takes the table's `i`-th row span as its height when there is one.
pub open spec fn spec_rows(
    nodes: Seq<SpecXmlNode>,
    cdata: Seq<char>,
    p: int,
    kids: Seq<int>,
    inh: SpecInherited,
    widths: Seq<Num>,
    heights: Seq<Num>,
    i: int,
) -> Seq<SpecRow>
    decreases nodes.len() - p, kids.len(),
{
    if kids.len() == 0 || !(0 <= p < kids[0] < nodes.len()) {
        Seq::empty()
    } else {
        let row = spec_row(nodes, cdata, kids[0], inh, widths);
        let row = if 0 <= i < heights.len() { SpecRow { height: heights[i], ..row } } else { row };
        seq![row] + spec_rows(nodes, cdata, p, kids.drop_first(), inh, widths, heights, i + 1)
    }
}

/// A `<row>` element.
pub open spec fn spec_row(
    nodes: Seq<SpecXmlNode>,
    cdata: Seq<char>,
    e: int,
    inh: SpecInherited,
    widths: Seq<Num>,
) -> SpecRow
    decreases nodes.len() - e + 1, 0int,
{
    if 0 <= e < nodes.len() {
        let n = nodes[e];
        let row_widths = spec_csv(spec_attr_str(n, "columnSpans"@, Seq::empty()));
        SpecRow {
            name: spec_attr_str(n, "rowName"@, "row1"@),
            row_type: spec_attr_str(n, "rowType"@, "dataRow"@),
            height: spec_attr_num(n, "height"@, Num { nanos: 0 }),
            height_min: spec_attr_num_opt(n, "height_min"@),
            border: spec_border_style(n),
            valign: spec_attr_opt(n, "valign"@),
            cells: spec_cells(nodes, cdata, e, named_children(nodes, e, "cell"@), inh, widths, row_widths, 0),
        }
    } else {
        spec_default_row()
    }
}

/// The cells of a row from its `<cell>` children `kids`, the first being cell number `i`;
/// a cell without a width of its own takes the row's `i`-th span, or the table's when the
/// row has none, or 100.
pub open spec fn spec_cells(
    nodes: Seq<SpecXmlNode>,
    cdata: Seq<char>,
    p: int,
    kids: Seq<int>,
    inh: SpecInherited,
    widths: Seq<Num>,
    row_widths: Seq<Num>,
    i: int,
) -> Seq<SpecCell>
    decreases nodes.len() - p, kids.len(),
{
    if kids.len() == 0 || !(0 <= p < kids[0] < nodes.len()) {
        Seq::empty()
    } else {
        let cell = spec_cell(nodes, cdata, kids[0], inh);
        let w = if row_widths.len() > 0 { width_at(row_widths, i) } else { width_at(widths, i) };
        let cell = if cell.width is None { SpecCell { width: Some(w), ..cell } } else { cell };
        seq![cell] + spec_cells(nodes, cdata, p, kids.drop_first(), inh, widths, row_widths, i + 1)
    }
}

/// A `<cell>` element. A cell spanning several columns is widened instead: its width is
/// `100 * colspan` and its span becomes 1.
pub open spec fn spec_cell(nodes: Seq<SpecXmlNode>, cdata: Seq<char>, e: int, inh: SpecInherited) -> SpecCell
    decreases nodes.len() - e + 1, 0int,
{
    if 0 <= e < nodes.len() {
        let n = nodes[e];
        let colspan = spec_attr_i32(n, "colspan"@, 1);
        let cell = SpecCell {
            colspan,
            rowspan: spec_attr_i32(n, "rowspan"@, 1),
            vertical_align: spec_vertical_from_attr(spec_attr_opt(n, "align"@)),
            fill_color: spec_attr_i32(n, "fillColor"@, 16777215),
            border: SpecBorder {
                name: or_else(spec_attr_opt(n, "border"@), inh.name, "borderCell"@),
                style: or_else(spec_attr_opt(n, "borderStyle"@), inh.style, "borderStyle-solid"@),
            },
            border_width: or_else(spec_attr_num_opt(n, "borderWidth"@), inh.width, Num { nanos: 500_000_000 }),
            border_color: or_else(spec_attr_i32_opt(n, "borderColor"@), inh.color, 0i32),
            border_spec: or_else(spec_attr_i32_opt(n, "borderSpec"@), inh.spec, 15i32),
            width: None,
            content: spec_cell_blocks(nodes, cdata, e, element_children(nodes, e)),
        };
        if colspan > 1 {
            SpecCell { width: Some(Num { nanos: saturate_i64(colspan * 100_000_000_000) as i64 }), colspan: 1, ..cell }
        } else {
            cell
        }
    } else {
        spec_default_cell()
    }
}

/// The blocks of a cell from its element children `kids`: paragraphs and nested tables.
pub open spec fn spec_cell_blocks(nodes: Seq<SpecXmlNode>, cdata: Seq<char>, p: int, kids: Seq<int>) -> Seq<SpecBlock>
    decreases nodes.len() - p, kids.len(),
{
    if kids.len() == 0 || !(0 <= p < kids[0] < nodes.len()) {
        Seq::empty()
    } else {
        let c = kids[0];
        let rest = spec_cell_blocks(nodes, cdata, p, kids.drop_first());
        if nodes[c].name == "paragraph"@ {
            seq![SpecBlock::Paragraph(spec_paragraph(nodes, cdata, c))] + rest
        } else if nodes[c].name == "table"@ {
            seq![SpecBlock::Table(spec_table(nodes, cdata, c))] + rest
        } else {
            rest
        }
    }
}

// ---------------------------------------------------------------------------
// Sections, footer page number, styles, page format
// ---------------------------------------------------------------------------

/// The blocks of a section (`<header>`, `<footer>`): its paragraphs and tables.
pub open spec fn spec_section(nodes: Seq<SpecXmlNode>, cdata: Seq<char>, e: int) -> Seq<SpecBlock> {
    spec_cell_blocks(nodes, cdata, e, element_children(nodes, e))
}

/// The attribute names that make up a footer's page-number settings.
pub open spec fn is_page_number_attr(name: Seq<char>) -> bool {
    name == "pageNumber-spec"@ || name == "pageNumber-fontFace"@ || name == "pageNumber-fontSize"@
        || name == "pageNumber-fontBold"@ || name == "pageNumber-fontItalic"@ || name
        == "pageNumber-color"@ || name == "pageNumber-foreStr"@ || name
        == "pageNumber-pageStartNumStr"@
}

/// `attrs` with `a` put in name order, replacing an entry of the same name.
pub open spec fn sorted_insert(attrs: Seq<SpecAttr>, a: SpecAttr) -> Seq<SpecAttr>
    decreases attrs.len(),
{
    if attrs.len() == 0 {
        seq![a]
    } else if attrs[0].name == a.name {
        seq![a] + attrs.drop_first()
    } else if seq_lt(a.name, attrs[0].name) {
        seq![a] + attrs
    } else {
        seq![attrs[0]] + sorted_insert(attrs.drop_first(), a)
    }
}

/// The footer attributes other than the page-number settings, inserted in document order
/// into a name-sorted list (a later attribute replaces an earlier one of the same name).
pub open spec fn spec_extras(attrs: Seq<SpecAttr>, acc: Seq<SpecAttr>) -> Seq<SpecAttr>
    decreases attrs.len(),
{
    if attrs.len() == 0 {
        acc
    } else {
        spec_extras(
            attrs.drop_first(),
            if is_page_number_attr(attrs[0].name) { acc } else { sorted_insert(acc, attrs[0]) },
        )
    }
}

pub open spec fn has_any_page_number_attr(attrs: Seq<SpecAttr>) -> bool {
    exists|k: int| 0 <= k < attrs.len() && (is_page_number_attr(#[trigger] attrs[k].name)
        || attrs[k].name == "color-boundary"@ || attrs[k].name == "stroke-boundary"@)
}

/// A footer's page-number settings, present when the footer has any page-number or
/// boundary attribute.
pub open spec fn spec_footer_page_number(n: SpecXmlNode) -> Option<SpecFooterPageNumber> {
    if has_any_page_number_attr(n.attributes) {
        Some(
            SpecFooterPageNumber {
                spec: spec_attr_str(n, "pageNumber-spec"@, Seq::empty()),
                font_face: spec_attr_str(n, "pageNumber-fontFace"@, "Times New Roman"@),
                font_size: spec_attr_num(n, "pageNumber-fontSize"@, Num { nanos: 11_000_000_000 }),
                font_bold: spec_attr_bool(n, "pageNumber-fontBold"@),
                font_italic: spec_attr_bool(n, "pageNumber-fontItalic"@),
                color: spec_attr_i32(n, "pageNumber-color"@, -16777216i32),
                fore_str: spec_attr_str(n, "pageNumber-foreStr"@, Seq::empty()),
                page_start_num_str: spec_attr_str(n, "pageNumber-pageStartNumStr"@, Seq::empty()),
                extra_attributes: spec_extras(n.attributes, Seq::empty()),
            },
        )
    } else {
        None
    }
}

/// What `<elements>` yields: header, body, footer and the footer's page-number settings.
pub struct SpecParsed {
    pub header: Seq<SpecBlock>,
    pub body: Seq<SpecBlock>,
    pub footer: Seq<SpecBlock>,
    pub footer_page_number: Option<SpecFooterPageNumber>,
}

pub open spec fn spec_parsed_empty() -> SpecParsed {
    SpecParsed {
        header: Seq::empty(),
        body: Seq::empty(),
        footer: Seq::empty(),
        footer_page_number: None,
    }
}

/// The children of `<elements>` from `kids` on, applied to `acc` in document order:
/// paragraphs, tables and page breaks append to the body; a `<header>` or `<footer>`
/// replaces the header or footer (the footer with its page-number settings).
pub open spec fn spec_elements(nodes: Seq<SpecXmlNode>, cdata: Seq<char>, kids: Seq<int>, acc: SpecParsed) -> SpecParsed
    decreases kids.len(),
{
    if kids.len() == 0 {
        acc
    } else {
        let c = kids[0];
        let name = nodes[c].name;
        let next = if name == "paragraph"@ {
            SpecParsed { body: acc.body.push(SpecBlock::Paragraph(spec_paragraph(nodes, cdata, c))), ..acc }
        } else if name == "table"@ {
            SpecParsed { body: acc.body.push(SpecBlock::Table(spec_table(nodes, cdata, c))), ..acc }
        } else if name == "header"@ {
            SpecParsed { header: spec_section(nodes, cdata, c), ..acc }
        } else if name == "footer"@ {
            SpecParsed {
                footer: spec_section(nodes, cdata, c),
                footer_page_number: spec_footer_page_number(nodes[c]),
                ..acc
            }
        } else if name == "page-break"@ {
            SpecParsed { body: acc.body.push(SpecBlock::PageBreak), ..acc }
        } else {
            acc
        };
        spec_elements(nodes, cdata, kids.drop_first(), next)
    }
}

/// One `<style>`: its `name` and its other attributes in document order.
pub open spec fn spec_style(n: SpecXmlNode) -> SpecStyle {
    SpecStyle {
        name: spec_attr_str(n, "name"@, Seq::empty()),
        attributes: n.attributes.filter(|a: SpecAttr| a.name != "name"@),
    }
}

/// The document's `<styles>`, or the two default styles when there are none.
pub open spec fn spec_styles(nodes: Seq<SpecXmlNode>, t: int) -> Seq<SpecStyle> {
    match spec_first_child_element(nodes, t, "styles"@) {
        Some(s) => {
            let kids = named_children(nodes, s, "style"@);
            if kids.len() == 0 {
                spec_default_styles()
            } else {
                kids.map_values(|k: int| spec_style(nodes[k]))
            }
        },
        None => spec_default_styles(),
    }
}

/// `<properties><pageFormat .../>`; missing attributes take the defaults.
pub open spec fn spec_page_format(nodes: Seq<SpecXmlNode>, props: int) -> PageFormat {
    let d = spec_default_page_format();
    match spec_first_child_element(nodes, props, "pageFormat"@) {
        Some(k) => {
            let pf = nodes[k];
            PageFormat {
                media_size_name: spec_attr_i32(pf, "mediaSizeName"@, 1),
                left_margin: spec_attr_num(pf, "leftMargin"@, d.left_margin),
                right_margin: spec_attr_num(pf, "rightMargin"@, d.right_margin),
                top_margin: spec_attr_num(pf, "topMargin"@, d.top_margin),
                bottom_margin: spec_attr_num(pf, "bottomMargin"@, d.bottom_margin),
                paper_orientation: spec_attr_i32(pf, "paperOrientation"@, 1),
                header_f_offset: spec_attr_num(pf, "headerFOffset"@, d.header_f_offset),
                footer_f_offset: spec_attr_num(pf, "footerFOffset"@, d.footer_f_offset),
            }
        },
        None => d,
    }
}

/// The document an XML node list describes, or why it is not one.
pub open spec fn spec_document(nodes: Seq<SpecXmlNode>) -> Result<SpecDocument, SpecUdfError> {
    let roots = element_children(nodes, 0);
    if nodes.len() == 0 || roots.len() == 0 || nodes[roots[0]].name != "template"@ {
        Err(SpecUdfError::MalformedDocument("missing <template> root element"@))
    } else {
        let t = roots[0];
        match spec_first_child_element(nodes, t, "content"@) {
            None => Err(SpecUdfError::MalformedDocument("missing <content> element"@)),
            Some(c) => {
                let cdata = spec_node_text(nodes, c);
                let el = spec_first_child_element(nodes, t, "elements"@);
                let parsed = match el {
                    Some(e) => spec_elements(nodes, cdata, element_children(nodes, e), spec_parsed_empty()),
                    None => spec_parsed_empty(),
                };
                Ok(
                    SpecDocument {
                        pages: match spec_first_child_element(nodes, t, "properties"@) {
                            Some(p) => spec_page_format(nodes, p),
                            None => spec_default_page_format(),
                        },
                        header: parsed.header,
                        body: parsed.body,
                        footer: parsed.footer,
                        footer_page_number: parsed.footer_page_number,
                        format_id: spec_attr_str(nodes[t], "format_id"@, "1.8"@),
                        resolver: match el {
                            Some(e) => spec_attr_str(nodes[e], "resolver"@, "hvl-default"@),
                            None => "hvl-default"@,
                        },
                        styles: spec_styles(nodes, t),
                    },
                )
            },
        }
    }
}

// ---------------------------------------------------------------------------
// Executable parser
// ---------------------------------------------------------------------------

/// Split a comma-separated list of numbers, trimming whitespace and dropping invalid items.
fn parse_csv_nums(s: &str) -> (r: Vec<Num>)
    ensures
        r@ == spec_csv(s@),
{
    let chars = chars_of(s);
    let pieces = split_either_exec(&chars, ',', ',');
    let ghost pv = pieces@.map_values(|p: String| p@);
    let mut out: Vec<Num> = Vec::new();
    let mut k: usize = 0;
    assert(pv.skip(0) =~= pv);
    while k < pieces.len()
        invariant
            k <= pieces.len(),
            pv == pieces@.map_values(|p: String| p@),
            pv == split_either(s@, ',', ','),
            out@ + csv_pieces(pv.skip(k as int)) == csv_pieces(pv),
        decreases pieces.len() - k,
    {
        let ghost rest = pv.skip(k as int);
        assert(rest[0] == pieces@[k as int]@);
        assert(rest.drop_first() =~= pv.skip(k + 1));
        let t = trim_exec(pieces[k].as_str());
        match parse_num(t.as_str()) {
            Some(v) => {
                out.push(v);
                assert(out@ + csv_pieces(pv.skip(k + 1)) =~= csv_pieces(pv));
            },
            None => {},
        }
        k = k + 1;
    }
    assert(pv.skip(k as int) =~= Seq::<Seq<char>>::empty());
    assert(out@ =~= csv_pieces(pv));
    out
}

/// The text of a piece before its first `:`.
fn before_colon_exec(s: &str) -> (r: String)
    ensures
        r@ == before_colon(s@),
{
    let chars = chars_of(s);
    assert(chars@.skip(0) =~= chars@);
    match find_char_from(&chars, 0, ':') {
        Some(i) => {
            assert(chars@.take(i as int) =~= chars@.subrange(0, i as int));
            string_of_range(&chars, 0, i)
        },
        None => {
            assert(chars@ =~= chars@.subrange(0, chars.len() as int));
            string_of_range(&chars, 0, chars.len())
        },
    }
}

/// Tab stops of a `TabSet` attribute value.
fn parse_tab_stops(v: Option<&str>) -> (r: Vec<Num>)
    ensures
        r@ == spec_tab_stops(
            match v {
                Some(s) => Some(s@),
                None => None,
            },
        ),
{
    let s = match v {
        Some(s) => s,
        None => {
            return Vec::new();
        },
    };
    let chars = chars_of(s);
    if chars.len() == 0 {
        return Vec::new();
    }
    let pieces = split_either_exec(&chars, ',', ';');
    let ghost pv = pieces@.map_values(|p: String| p@);
    let mut out: Vec<Num> = Vec::new();
    let mut k: usize = 0;
    assert(pv.skip(0) =~= pv);
    while k < pieces.len()
        invariant
            k <= pieces.len(),
            pv == pieces@.map_values(|p: String| p@),
            pv == split_either(s@, ',', ';'),
            out@ + tab_pieces(pv.skip(k as int)) == tab_pieces(pv),
        decreases pieces.len() - k,
    {
        let ghost rest = pv.skip(k as int);
        assert(rest[0] == pieces@[k as int]@);
        assert(rest.drop_first() =~= pv.skip(k + 1));
        let t = before_colon_exec(pieces[k].as_str());
        match parse_num(t.as_str()) {
            Some(x) => {
                out.push(x);
                assert(out@ + tab_pieces(pv.skip(k + 1)) =~= tab_pieces(pv));
            },
            None => {},
        }
        k = k + 1;
    }
    assert(pv.skip(k as int) =~= Seq::<Seq<char>>::empty());
    assert(out@ =~= tab_pieces(pv));
    out
}

/// Character styling of a run element.
fn parse_font_style(nodes: &Vec<XmlNode>, e: usize) -> (r: TextStyle)
    requires
        e < nodes.len(),
    ensures
        r@ == spec_font_style(nodes_view(nodes@)[e as int]),
{
    TextStyle {
        font_family: attr_str(nodes, e, "family", "Times New Roman"),
        font_size: attr_f64(nodes, e, "size", Num { nanos: 12_000_000_000 }),
        bold: attr_bool(nodes, e, "bold"),
        italic: attr_bool(nodes, e, "italic"),
        underline: attr_bool(nodes, e, "underline"),
        strikethrough: attr_bool(nodes, e, "strikethrough"),
        color: attr_i32(nodes, e, "foreground", -16777216),
        background_color: attr_i32(nodes, e, "background", -1),
    }
}

/// The cleaned text of a `<content>` run.
fn parse_run_text(nodes: &Vec<XmlNode>, e: usize, cdata: &str) -> (r: String)
    requires
        e < nodes.len(),
    ensures
        r@ == spec_run_text(nodes_view(nodes@)[e as int], cdata@),
{
    let start_offset = attr_i64(nodes, e, "startOffset", 0);
    let length = attr_i64(nodes, e, "length", 0);
    let raw = rune_substring_clamped(cdata, start_offset, length);
    let text = remove_char(raw.as_str(), '\u{200B}');
    assert(text@ =~= spec_run_text(nodes_view(nodes@)[e as int], cdata@));
    text
}

fn parse_image_run(nodes: &Vec<XmlNode>, e: usize) -> (r: ImageRun)
    requires
        e < nodes.len(),
    ensures
        InlineElement::Image(r)@ == spec_image_run(nodes_view(nodes@)[e as int]),
{
    proof {
        reveal_strlit("");
        assert(""@ =~= Seq::<char>::empty());
    }
    let r = ImageRun {
        data: attr_str(nodes, e, "imageData", ""),
        width: attr_f64(nodes, e, "width", Num { nanos: 0 }),
        height: attr_f64(nodes, e, "height", Num { nanos: 0 }),
    };
    assert(InlineElement::Image(r)@ == spec_image_run(nodes_view(nodes@)[e as int]));
    r
}

pub open spec fn runs_view(v: Seq<InlineElement>) -> Seq<SpecInline> {
    v.map_values(|r: InlineElement| r@)
}

/// The runs of a paragraph from its element children `kids`.
fn collect_runs(
    nodes: &Vec<XmlNode>,
    cdata: &str,
    kids: &Vec<usize>,
    child_count: usize,
    has_list_attr: bool,
) -> (r: (Vec<InlineElement>, Option<TextStyle>))
    requires
        forall|k: int| 0 <= k < kids.len() ==> #[trigger] kids@[k] < nodes.len(),
    ensures
        runs_view(r.0@) == spec_runs(
            nodes_view(nodes@),
            cdata@,
            kids@.map_values(|j: usize| j as int),
            child_count as int,
            has_list_attr,
        ).0,
        match r.1 {
            Some(t) => spec_runs(
                nodes_view(nodes@),
                cdata@,
                kids@.map_values(|j: usize| j as int),
                child_count as int,
                has_list_attr,
            ).1 == Some(t@),
            None => spec_runs(
                nodes_view(nodes@),
                cdata@,
                kids@.map_values(|j: usize| j as int),
                child_count as int,
                has_list_attr,
            ).1 is None,
        },
{
    let ghost nv = nodes_view(nodes@);
    let ghost ks = kids@.map_values(|j: usize| j as int);
    let ghost whole = spec_runs(nv, cdata@, ks, child_count as int, has_list_attr);
    let mut runs: Vec<InlineElement> = Vec::new();
    let mut k: usize = 0;
    assert(ks.skip(0) =~= ks);
    assert(runs_view(runs@) =~= Seq::<SpecInline>::empty());
    while k < kids.len()
        invariant
            k <= kids.len(),
            nv == nodes_view(nodes@),
            ks == kids@.map_values(|j: usize| j as int),
            forall|m: int| 0 <= m < kids.len() ==> #[trigger] kids@[m] < nodes.len(),
            whole == spec_runs(nv, cdata@, ks, child_count as int, has_list_attr),
            whole.0 == runs_view(runs@) + spec_runs(
                nv,
                cdata@,
                ks.skip(k as int),
                child_count as int,
                has_list_attr,
            ).0,
            whole.1 == spec_runs(nv, cdata@, ks.skip(k as int), child_count as int, has_list_attr).1,
        decreases kids.len() - k,
    {
        let c = kids[k];
        let ghost rest = ks.skip(k as int);
        let ghost tail = spec_runs(nv, cdata@, rest.drop_first(), child_count as int, has_list_attr);
        assert(rest[0] == c as int);
        assert(rest.drop_first() =~= ks.skip(k + 1));
        let ghost before = runs_view(runs@);
        proof {
            reveal_strlit("content");
            reveal_strlit("image");
            reveal_strlit("tab");
        }
        if str_eq(nodes[c].name.as_str(), "content") {
            let start_offset = attr_i64(nodes, c, "startOffset", -1);
            let length = attr_i64(nodes, c, "length", -1);
            let text = parse_run_text(nodes, c, cdata);
            let style = parse_font_style(nodes, c);
            let is_placeholder = start_offset == 0 && length == 1 && child_count == 1
                && !has_list_attr;
            if is_placeholder || text.as_str().is_empty() {
                assert(whole.0 =~= runs_view(runs@));
                return (runs, Some(style));
            }
            runs.push(InlineElement::Text(TextRun { text, style }));
        } else if str_eq(nodes[c].name.as_str(), "image") {
            runs.push(InlineElement::Image(parse_image_run(nodes, c)));
        } else if str_eq(nodes[c].name.as_str(), "tab") {
            runs.push(InlineElement::Tab(TabRun { style: parse_font_style(nodes, c) }));
        }
        proof {
            if runs@.len() > before.len() {
                assert(runs_view(runs@) =~= before.push(runs_view(runs@).last()));
            } else {
                assert(runs_view(runs@) =~= before);
            }
            assert(whole.0 =~= runs_view(runs@) + tail.0);
        }
        k = k + 1;
    }
    assert(ks.skip(k as int) =~= Seq::<int>::empty());
    assert(whole.0 =~= runs_view(runs@));
    (runs, None)
}

/// A `<paragraph>` element.
fn parse_paragraph(nodes: &Vec<XmlNode>, e: usize, cdata: &str) -> (r: Paragraph)
    requires
        e < nodes.len(),
    ensures
        r@ == spec_paragraph(nodes_view(nodes@), cdata@, e as int),
{
    let has_list_attr = attr_present(nodes, e, "Bulleted") || attr_present(nodes, e, "Numbered");
    let kids = element_children_exec(nodes, e);
    let (runs, placeholder) = collect_runs(nodes, cdata, &kids, kids.len(), has_list_attr);
    let is_numbered = attr_bool(nodes, e, "Numbered");
    let is_bulleted = attr_bool(nodes, e, "Bulleted");
    let list = if is_numbered || is_bulleted {
        Some(
            ListProperties {
                list_type: if is_numbered { ListType::Numbered } else { ListType::Bulleted },
                number_type: attr_str_opt(nodes, e, "NumberType"),
                bullet_type: attr_str_opt(nodes, e, "BulletType"),
                level: attr_i32(nodes, e, "ListLevel", 0),
                list_id: attr_i32_opt(nodes, e, "ListId"),
            },
        )
    } else {
        None
    };
    let empty_content_style = if runs.len() == 0 { placeholder } else { None };
    let p = Paragraph {
        alignment: Alignment::from_attr(attr_opt(nodes, e, "Alignment")),
        left_indent: attr_f64(nodes, e, "LeftIndent", Num { nanos: 0 }),
        right_indent: attr_f64(nodes, e, "RightIndent", Num { nanos: 0 }),
        first_line_indent: attr_f64(nodes, e, "FirstLineIndent", Num { nanos: 0 }),
        line_spacing: attr_f64(nodes, e, "LineSpacing", Num { nanos: 0 }),
        space_before: attr_f64(nodes, e, "SpaceAbove", Num { nanos: 0 }),
        space_after: attr_f64(nodes, e, "SpaceBelow", Num { nanos: 0 }),
        runs,
        list,
        tab_stops: parse_tab_stops(attr_opt(nodes, e, "TabSet")),
        empty_content_style,
    };
    assert(p@.runs == runs_view(p.runs@));
    p
}

proof fn lemma_view_blocks_push(s: Seq<BlockElement>, b: BlockElement)
    ensures
        view_blocks(s.push(b)) == view_blocks(s).push(view_block(b)),
{
    assert(s.push(b).subrange(0, s.len() as int) =~= s);
}

proof fn lemma_view_rows_push(s: Seq<TableRow>, b: TableRow)
    ensures
        view_rows(s.push(b)) == view_rows(s).push(view_row(b)),
{
    assert(s.push(b).subrange(0, s.len() as int) =~= s);
}

proof fn lemma_view_cells_push(s: Seq<TableCell>, b: TableCell)
    ensures
        view_cells(s.push(b)) == view_cells(s).push(view_cell(b)),
{
    assert(s.push(b).subrange(0, s.len() as int) =~= s);
}

/// Border settings a table passes down to its cells.
struct InheritedBorder {
    name: Option<String>,
    style: Option<String>,
    width: Option<Num>,
    color: Option<i32>,
    spec: Option<i32>,
}

impl View for InheritedBorder {
    type V = SpecInherited;

    closed spec fn view(&self) -> SpecInherited {
        SpecInherited {
            name: opt_str_view(self.name),
            style: opt_str_view(self.style),
            width: self.width,
            color: self.color,
            spec: self.spec,
        }
    }
}

fn parse_border_style(nodes: &Vec<XmlNode>, e: usize) -> (r: BorderStyle)
    requires
        e < nodes.len(),
    ensures
        r@ == spec_border_style(nodes_view(nodes@)[e as int]),
{
    BorderStyle {
        name: attr_str(nodes, e, "border", "borderCell"),
        style: attr_str(nodes, e, "borderStyle", "borderStyle-solid"),
    }
}

/// A cell's own string setting, else the inherited one, else the default.
fn str_or_inherited(own: Option<String>, inherited: &Option<String>, default: &str) -> (r: String)
    ensures
        r@ == or_else(opt_str_view(own), opt_str_view(*inherited), default@),
{
    match own {
        Some(s) => s,
        None => match inherited {
            Some(s) => String::from_str(s.as_str()),
            None => String::from_str(default),
        },
    }
}

/// The blocks of a cell or section: its paragraphs and nested tables.
fn parse_blocks(nodes: &Vec<XmlNode>, p: usize, cdata: &str) -> (r: Vec<BlockElement>)
    requires
        p < nodes.len(),
    ensures
        view_blocks(r@) == spec_cell_blocks(
            nodes_view(nodes@),
            cdata@,
            p as int,
            element_children(nodes_view(nodes@), p as int),
        ),
    decreases nodes.len() - p, 0int,
{
    let ghost nv = nodes_view(nodes@);
    let kids = element_children_exec(nodes, p);
    let ghost ks = kids@.map_values(|j: usize| j as int);
    let ghost whole = spec_cell_blocks(nv, cdata@, p as int, ks);
    let mut out: Vec<BlockElement> = Vec::new();
    let mut k: usize = 0;
    assert(ks.skip(0) =~= ks);
    assert(view_blocks(out@) =~= Seq::<SpecBlock>::empty());
    while k < kids.len()
        invariant
            k <= kids.len(),
            p < nodes.len(),
            nv == nodes_view(nodes@),
            ks == kids@.map_values(|j: usize| j as int),
            ks == element_children(nv, p as int),
            forall|m: int| 0 <= m < kids.len() ==> p < #[trigger] kids@[m] < nodes.len(),
            whole == spec_cell_blocks(nv, cdata@, p as int, ks),
            whole == view_blocks(out@) + spec_cell_blocks(nv, cdata@, p as int, ks.skip(k as int)),
        decreases kids.len() - k,
    {
        let c = kids[k];
        let ghost rest = ks.skip(k as int);
        assert(rest[0] == c as int);
        assert(rest.drop_first() =~= ks.skip(k + 1));
        let ghost before = out@;
        proof {
            reveal_strlit("paragraph");
            reveal_strlit("table");
        }
        if str_eq(nodes[c].name.as_str(), "paragraph") {
            let b = BlockElement::Paragraph(parse_paragraph(nodes, c, cdata));
            proof {
                lemma_view_blocks_push(before, b);
            }
            out.push(b);
        } else if str_eq(nodes[c].name.as_str(), "table") {
            let b = BlockElement::Table(parse_table(nodes, c, cdata));
            proof {
                lemma_view_blocks_push(before, b);
            }
            out.push(b);
        }
        assert(whole =~= view_blocks(out@) + spec_cell_blocks(nv, cdata@, p as int, ks.skip(k + 1)));
        k = k + 1;
    }
    assert(ks.skip(k as int) =~= Seq::<int>::empty());
    assert(whole =~= view_blocks(out@));
    out
}

/// A `<table>` element.
fn parse_table(nodes: &Vec<XmlNode>, e: usize, cdata: &str) -> (r: Table)
    requires
        e < nodes.len(),
    ensures
        view_table(r) == spec_table(nodes_view(nodes@), cdata@, e as int),
    decreases nodes.len() - e, 1int,
{
    let ghost nv = nodes_view(nodes@);
    let inherited = InheritedBorder {
        name: attr_str_opt(nodes, e, "border"),
        style: attr_str_opt(nodes, e, "borderStyle"),
        width: attr_f64_opt(nodes, e, "borderWidth"),
        color: attr_i32_opt(nodes, e, "borderColor"),
        spec: attr_i32_opt(nodes, e, "borderSpec"),
    };
    let column_count = attr_i32(nodes, e, "columnCount", 0);
    let spans_text = attr_str(nodes, e, "columnSpans", "");
    let mut widths = parse_csv_nums(spans_text.as_str());
    let ghost spans = widths@;
    let count: usize = if column_count < 0 { 0 } else { column_count as usize };
    let cols: usize = if count > widths.len() { count } else { widths.len() };
    proof {
        reveal_strlit("");
        assert(""@ =~= Seq::<char>::empty());
    }
    assert(cols as int == spec_columns(column_count, spans.len() as int));
    while widths.len() < cols
        invariant
            spans.len() <= widths.len() <= cols,
            widths@ == spans + Seq::new(
                (widths.len() - spans.len()) as nat,
                |i: int| Num { nanos: 100_000_000_000 },
            ),
        decreases cols - widths.len(),
    {
        widths.push(Num { nanos: 100_000_000_000 });
        assert(widths@ =~= spans + Seq::new(
            (widths.len() - spans.len()) as nat,
            |i: int| Num { nanos: 100_000_000_000 },
        ));
    }
    let heights_text = attr_str(nodes, e, "rowSpans", "");
    let heights = parse_csv_nums(heights_text.as_str());
    let kids = child_elements(nodes, e, "row");
    let ghost ks = kids@.map_values(|j: usize| j as int);
    let ghost whole = spec_rows(nv, cdata@, e as int, ks, inherited@, widths@, heights@, 0);
    let mut rows: Vec<TableRow> = Vec::new();
    let mut k: usize = 0;
    assert(ks.skip(0) =~= ks);
    assert(view_rows(rows@) =~= Seq::<SpecRow>::empty());
    while k < kids.len()
        invariant
            k <= kids.len(),
            e < nodes.len(),
            nv == nodes_view(nodes@),
            ks == kids@.map_values(|j: usize| j as int),
            forall|m: int| 0 <= m < kids.len() ==> e < #[trigger] kids@[m] < nodes.len(),
            whole == spec_rows(nv, cdata@, e as int, ks, inherited@, widths@, heights@, 0),
            whole == view_rows(rows@) + spec_rows(
                nv,
                cdata@,
                e as int,
                ks.skip(k as int),
                inherited@,
                widths@,
                heights@,
                k as int,
            ),
        decreases kids.len() - k,
    {
        let c = kids[k];
        let ghost rest = ks.skip(k as int);
        assert(rest[0] == c as int);
        assert(rest.drop_first() =~= ks.skip(k + 1));
        let mut row = parse_table_row(nodes, c, cdata, &inherited, &widths);
        if k < heights.len() {
            row.height = heights[k];
        }
        proof {
            lemma_view_rows_push(rows@, row);
        }
        rows.push(row);
        assert(whole =~= view_rows(rows@) + spec_rows(
            nv,
            cdata@,
            e as int,
            ks.skip(k + 1),
            inherited@,
            widths@,
            heights@,
            k + 1,
        ));
        k = k + 1;
    }
    assert(ks.skip(k as int) =~= Seq::<int>::empty());
    assert(whole =~= view_rows(rows@));
    let columns: i32 = if cols > 1 { cols as i32 } else { 1 };
    Table {
        name: attr_str(nodes, e, "tableName", "Sabit"),
        columns,
        column_widths: widths,
        border: parse_border_style(nodes, e),
        rows,
        align: attr_str_opt(nodes, e, "align"),
        width: attr_str_opt(nodes, e, "width"),
        cellpadding: attr_f64_opt(nodes, e, "cellpadding"),
        cellspacing: attr_f64_opt(nodes, e, "cellspacing"),
        border_width: inherited.width,
        border_color: inherited.color,
        border_spec: inherited.spec,
    }
}

/// A `<row>` element.
fn parse_table_row(
    nodes: &Vec<XmlNode>,
    e: usize,
    cdata: &str,
    inherited: &InheritedBorder,
    widths: &Vec<Num>,
) -> (r: TableRow)
    requires
        e < nodes.len(),
    ensures
        view_row(r) == spec_row(nodes_view(nodes@), cdata@, e as int, inherited@, widths@),
    decreases nodes.len() - e, 1int,
{
    let ghost nv = nodes_view(nodes@);
    proof {
        reveal_strlit("");
        assert(""@ =~= Seq::<char>::empty());
    }
    let spans_text = attr_str(nodes, e, "columnSpans", "");
    let row_widths = parse_csv_nums(spans_text.as_str());
    let kids = child_elements(nodes, e, "cell");
    let ghost ks = kids@.map_values(|j: usize| j as int);
    let ghost whole = spec_cells(nv, cdata@, e as int, ks, inherited@, widths@, row_widths@, 0);
    let mut cells: Vec<TableCell> = Vec::new();
    let mut k: usize = 0;
    assert(ks.skip(0) =~= ks);
    assert(view_cells(cells@) =~= Seq::<SpecCell>::empty());
    while k < kids.len()
        invariant
            k <= kids.len(),
            e < nodes.len(),
            nv == nodes_view(nodes@),
            ks == kids@.map_values(|j: usize| j as int),
            forall|m: int| 0 <= m < kids.len() ==> e < #[trigger] kids@[m] < nodes.len(),
            whole == spec_cells(nv, cdata@, e as int, ks, inherited@, widths@, row_widths@, 0),
            whole == view_cells(cells@) + spec_cells(
                nv,
                cdata@,
                e as int,
                ks.skip(k as int),
                inherited@,
                widths@,
                row_widths@,
                k as int,
            ),
        decreases kids.len() - k,
    {
        let c = kids[k];
        let ghost rest = ks.skip(k as int);
        assert(rest[0] == c as int);
        assert(rest.drop_first() =~= ks.skip(k + 1));
        let mut cell = parse_table_cell(nodes, c, cdata, inherited);
        let w = if row_widths.len() > 0 {
            if k < row_widths.len() { row_widths[k] } else { Num { nanos: 100_000_000_000 } }
        } else {
            if k < widths.len() { widths[k] } else { Num { nanos: 100_000_000_000 } }
        };
        if cell.width.is_none() {
            cell.width = Some(w);
        }
        proof {
            lemma_view_cells_push(cells@, cell);
        }
        cells.push(cell);
        assert(whole =~= view_cells(cells@) + spec_cells(
            nv,
            cdata@,
            e as int,
            ks.skip(k + 1),
            inherited@,
            widths@,
            row_widths@,
            k + 1,
        ));
        k = k + 1;
    }
    assert(ks.skip(k as int) =~= Seq::<int>::empty());
    assert(whole =~= view_cells(cells@));
    TableRow {
        name: attr_str(nodes, e, "rowName", "row1"),
        row_type: attr_str(nodes, e, "rowType", "dataRow"),
        height: attr_f64(nodes, e, "height", Num { nanos: 0 }),
        height_min: attr_f64_opt(nodes, e, "height_min"),
        border: parse_border_style(nodes, e),
        valign: attr_str_opt(nodes, e, "valign"),
        cells,
    }
}

/// A `<cell>` element.
fn parse_table_cell(nodes: &Vec<XmlNode>, e: usize, cdata: &str, inherited: &InheritedBorder) -> (r: TableCell)
    requires
        e < nodes.len(),
    ensures
        view_cell(r) == spec_cell(nodes_view(nodes@), cdata@, e as int, inherited@),
    decreases nodes.len() - e, 1int,
{
    let content = parse_blocks(nodes, e, cdata);
    let border_width = match attr_f64_opt(nodes, e, "borderWidth") {
        Some(w) => w,
        None => match inherited.width {
            Some(w) => w,
            None => Num { nanos: 500_000_000 },
        },
    };
    let border_color = match attr_i32_opt(nodes, e, "borderColor") {
        Some(c) => c,
        None => match inherited.color {
            Some(c) => c,
            None => 0,
        },
    };
    let border_spec = match attr_i32_opt(nodes, e, "borderSpec") {
        Some(c) => c,
        None => match inherited.spec {
            Some(c) => c,
            None => 15,
        },
    };
    let colspan = attr_i32(nodes, e, "colspan", 1);
    let mut cell = TableCell {
        colspan,
        rowspan: attr_i32(nodes, e, "rowspan", 1),
        vertical_align: VerticalAlignment::from_attr(attr_opt(nodes, e, "align")),
        fill_color: attr_i32(nodes, e, "fillColor", 16777215),
        border: BorderStyle {
            name: str_or_inherited(attr_str_opt(nodes, e, "border"), &inherited.name, "borderCell"),
            style: str_or_inherited(
                attr_str_opt(nodes, e, "borderStyle"),
                &inherited.style,
                "borderStyle-solid",
            ),
        },
        border_width,
        border_color,
        border_spec,
        width: None,
        content,
    };
    if cell.colspan > 1 {
        cell.width = Some(Num { nanos: saturate_i64_exec(cell.colspan as i128 * 100_000_000_000) });
        cell.colspan = 1;
    }
    cell
}

pub open spec fn attrs_view(v: Seq<StyleAttribute>) -> Seq<SpecAttr> {
    v.map_values(|a: StyleAttribute| a@)
}

/// Puts `a` into the name-sorted list `v`, replacing an entry of the same name.
fn sorted_insert_exec(v: &mut Vec<StyleAttribute>, a: StyleAttribute)
    ensures
        attrs_view(final(v)@) == sorted_insert(attrs_view(old(v)@), a@),
{
    let ghost m = attrs_view(v@);
    let mut i: usize = 0;
    assert(m.skip(0) =~= m);
    assert(m.take(0) + m.skip(0) =~= m);
    while i < v.len() && !str_eq(v[i].name.as_str(), a.name.as_str()) && !str_lt(
        a.name.as_str(),
        v[i].name.as_str(),
    )
        invariant
            i <= v.len(),
            m == attrs_view(v@),
            sorted_insert(m, a@) == m.take(i as int) + sorted_insert(m.skip(i as int), a@),
        decreases v.len() - i,
    {
        let ghost rest = m.skip(i as int);
        assert(rest[0] == m[i as int]);
        assert(rest.drop_first() =~= m.skip(i + 1));
        assert(m.take(i as int) + seq![m[i as int]] =~= m.take(i + 1));
        assert(sorted_insert(m, a@) =~= m.take(i + 1) + sorted_insert(m.skip(i + 1), a@));
        i = i + 1;
    }
    let ghost av = a@;
    if i < v.len() && str_eq(v[i].name.as_str(), a.name.as_str()) {
        let ghost rest = m.skip(i as int);
        assert(rest[0] == m[i as int]);
        assert(rest.drop_first() =~= m.skip(i + 1));
        v.set(i, a);
        assert(attrs_view(v@) =~= m.take(i as int) + (seq![av] + rest.drop_first()));
    } else {
        if i < v.len() {
            let ghost rest = m.skip(i as int);
            assert(rest[0] == m[i as int]);
        } else {
            assert(m.skip(i as int) =~= Seq::<SpecAttr>::empty());
        }
        v.insert(i, a);
        assert(attrs_view(v@) =~= m.take(i as int) + (seq![av] + m.skip(i as int)));
    }
}

fn is_page_number_attr_exec(name: &str) -> (r: bool)
    ensures
        r == is_page_number_attr(name@),
{
    str_eq(name, "pageNumber-spec") || str_eq(name, "pageNumber-fontFace") || str_eq(
        name,
        "pageNumber-fontSize",
    ) || str_eq(name, "pageNumber-fontBold") || str_eq(name, "pageNumber-fontItalic") || str_eq(
        name,
        "pageNumber-color",
    ) || str_eq(name, "pageNumber-foreStr") || str_eq(name, "pageNumber-pageStartNumStr")
}

/// A footer's page-number settings.
fn parse_footer_page_number(nodes: &Vec<XmlNode>, e: usize) -> (r: Option<FooterPageNumber>)
    requires
        e < nodes.len(),
    ensures
        match r {
            Some(f) => spec_footer_page_number(nodes_view(nodes@)[e as int]) == Some(f@),
            None => spec_footer_page_number(nodes_view(nodes@)[e as int]) is None,
        },
{
    let ghost n = nodes_view(nodes@)[e as int];
    let attrs = &nodes[e].attributes;
    let ghost av = n.attributes;
    let mut found = false;
    let mut extras: Vec<StyleAttribute> = Vec::new();
    let mut k: usize = 0;
    assert(av.skip(0) =~= av);
    assert(attrs_view(extras@) =~= Seq::<SpecAttr>::empty());
    while k < attrs.len()
        invariant
            k <= attrs.len(),
            e < nodes.len(),
            attrs == &nodes@[e as int].attributes,
            av == n.attributes,
            n == nodes_view(nodes@)[e as int],
            av == attrs@.map_values(|a: XmlAttribute| a@),
            found == exists|j: int| 0 <= j < k && (is_page_number_attr(#[trigger] av[j].name)
                || av[j].name == "color-boundary"@ || av[j].name == "stroke-boundary"@),
            spec_extras(av, Seq::empty()) == spec_extras(av.skip(k as int), attrs_view(extras@)),
        decreases attrs.len() - k,
    {
        let name = attrs[k].name.as_str();
        let ghost rest = av.skip(k as int);
        assert(rest[0] == av[k as int]);
        assert(rest.drop_first() =~= av.skip(k + 1));
        let known = is_page_number_attr_exec(name);
        if known || str_eq(name, "color-boundary") || str_eq(name, "stroke-boundary") {
            found = true;
        }
        if !known {
            sorted_insert_exec(
                &mut extras,
                StyleAttribute {
                    name: String::from_str(name),
                    value: String::from_str(attrs[k].value.as_str()),
                },
            );
        }
        k = k + 1;
    }
    assert(av.skip(k as int) =~= Seq::<SpecAttr>::empty());
    if !found {
        return None;
    }
    proof {
        reveal_strlit("");
        assert(""@ =~= Seq::<char>::empty());
    }
    let f = FooterPageNumber {
        spec: attr_str(nodes, e, "pageNumber-spec", ""),
        font_face: attr_str(nodes, e, "pageNumber-fontFace", "Times New Roman"),
        font_size: attr_f64(nodes, e, "pageNumber-fontSize", Num { nanos: 11_000_000_000 }),
        font_bold: attr_bool(nodes, e, "pageNumber-fontBold"),
        font_italic: attr_bool(nodes, e, "pageNumber-fontItalic"),
        color: attr_i32(nodes, e, "pageNumber-color", -16777216),
        fore_str: attr_str(nodes, e, "pageNumber-foreStr", ""),
        page_start_num_str: attr_str(nodes, e, "pageNumber-pageStartNumStr", ""),
        extra_attributes: extras,
    };
    Some(f)
}

/// One `<style>` element.
fn parse_style(nodes: &Vec<XmlNode>, e: usize) -> (r: DocumentStyle)
    requires
        e < nodes.len(),
    ensures
        r@ == spec_style(nodes_view(nodes@)[e as int]),
{
    let ghost n = nodes_view(nodes@)[e as int];
    let attrs = &nodes[e].attributes;
    let ghost av = n.attributes;
    let mut out: Vec<StyleAttribute> = Vec::new();
    let mut k: usize = 0;
    proof {
        reveal_strlit("");
        reveal_strlit("name");
        assert(""@ =~= Seq::<char>::empty());
    }
    while k < attrs.len()
        invariant
            k <= attrs.len(),
            e < nodes.len(),
            attrs == &nodes@[e as int].attributes,
            av == n.attributes,
            n == nodes_view(nodes@)[e as int],
            av == attrs@.map_values(|a: XmlAttribute| a@),
            attrs_view(out@) == av.take(k as int).filter(|a: SpecAttr| a.name != "name"@),
        decreases attrs.len() - k,
    {
        assert(av.take(k + 1).drop_last() =~= av.take(k as int));
        reveal_with_fuel(Seq::<_>::filter, 1);
        if !str_eq(attrs[k].name.as_str(), "name") {
            let ghost before = attrs_view(out@);
            out.push(
                StyleAttribute {
                    name: String::from_str(attrs[k].name.as_str()),
                    value: String::from_str(attrs[k].value.as_str()),
                },
            );
            assert(attrs_view(out@) =~= before.push(av[k as int]));
        }
        k = k + 1;
    }
    assert(av.take(attrs.len() as int) =~= av);
    DocumentStyle { name: attr_str(nodes, e, "name", ""), attributes: out }
}

/// The document's named styles, or the two defaults when there are none.
fn parse_styles(nodes: &Vec<XmlNode>, t: usize) -> (r: Vec<DocumentStyle>)
    requires
        t < nodes.len(),
    ensures
        r@.map_values(|s: DocumentStyle| s@) == spec_styles(nodes_view(nodes@), t as int),
{
    let ghost nv = nodes_view(nodes@);
    let styles_el = match first_child_element(nodes, t, "styles") {
        Some(s) => s,
        None => {
            return DocumentStyle::defaults();
        },
    };
    let kids = child_elements(nodes, styles_el, "style");
    let ghost ks = kids@.map_values(|j: usize| j as int);
    let mut out: Vec<DocumentStyle> = Vec::new();
    let mut k: usize = 0;
    while k < kids.len()
        invariant
            k <= kids.len(),
            nv == nodes_view(nodes@),
            ks == kids@.map_values(|j: usize| j as int),
            forall|m: int| 0 <= m < kids.len() ==> #[trigger] kids@[m] < nodes.len(),
            out@.map_values(|s: DocumentStyle| s@) == ks.take(k as int).map_values(
                |j: int| spec_style(nv[j]),
            ),
        decreases kids.len() - k,
    {
        let ghost before = out@.map_values(|s: DocumentStyle| s@);
        let st = parse_style(nodes, kids[k]);
        let ghost sv = st@;
        assert(ks[k as int] == kids@[k as int] as int);
        assert(ks.take(k + 1) =~= ks.take(k as int).push(ks[k as int]));
        out.push(st);
        assert(out@.map_values(|s: DocumentStyle| s@) =~= before.push(sv));
        assert(out@.map_values(|s: DocumentStyle| s@) =~= ks.take(k + 1).map_values(
            |j: int| spec_style(nv[j]),
        ));
        k = k + 1;
    }
    assert(ks.take(kids.len() as int) =~= ks);
    if out.len() == 0 {
        DocumentStyle::defaults()
    } else {
        out
    }
}

/// `<properties><pageFormat/>`, or the default page.
fn parse_page_format(nodes: &Vec<XmlNode>, props: usize) -> (r: PageFormat)
    requires
        props < nodes.len(),
    ensures
        r == spec_page_format(nodes_view(nodes@), props as int),
{
    let pf = match first_child_element(nodes, props, "pageFormat") {
        Some(k) => k,
        None => {
            return PageFormat::default();
        },
    };
    PageFormat {
        media_size_name: attr_i32(nodes, pf, "mediaSizeName", 1),
        left_margin: attr_f64(nodes, pf, "leftMargin", Num { nanos: 42_520_000_000 }),
        right_margin: attr_f64(nodes, pf, "rightMargin", Num { nanos: 28_350_000_000 }),
        top_margin: attr_f64(nodes, pf, "topMargin", Num { nanos: 14_170_000_000 }),
        bottom_margin: attr_f64(nodes, pf, "bottomMargin", Num { nanos: 14_170_000_000 }),
        paper_orientation: attr_i32(nodes, pf, "paperOrientation", 1),
        header_f_offset: attr_f64(nodes, pf, "headerFOffset", Num { nanos: 20_000_000_000 }),
        footer_f_offset: attr_f64(nodes, pf, "footerFOffset", Num { nanos: 20_000_000_000 }),
    }
}

/// What `<elements>` yields.
struct ParsedElements {
    header: Vec<BlockElement>,
    body: Vec<BlockElement>,
    footer: Vec<BlockElement>,
    footer_page_number: Option<FooterPageNumber>,
}

impl View for ParsedElements {
    type V = SpecParsed;

    closed spec fn view(&self) -> SpecParsed {
        SpecParsed {
            header: view_blocks(self.header@),
            body: view_blocks(self.body@),
            footer: view_blocks(self.footer@),
            footer_page_number: match self.footer_page_number {
                Some(f) => Some(f@),
                None => None,
            },
        }
    }
}

/// Walks the children of `<elements>` in document order.
fn parse_elements(nodes: &Vec<XmlNode>, el: usize, cdata: &str) -> (r: ParsedElements)
    requires
        el < nodes.len(),
    ensures
        r@ == spec_elements(
            nodes_view(nodes@),
            cdata@,
            element_children(nodes_view(nodes@), el as int),
            spec_parsed_empty(),
        ),
{
    let ghost nv = nodes_view(nodes@);
    let kids = element_children_exec(nodes, el);
    let ghost ks = kids@.map_values(|j: usize| j as int);
    let mut result = ParsedElements {
        header: Vec::new(),
        body: Vec::new(),
        footer: Vec::new(),
        footer_page_number: None,
    };
    assert(result@ =~= spec_parsed_empty()) by {
        assert(view_blocks(result.header@) =~= Seq::<SpecBlock>::empty());
        assert(view_blocks(result.body@) =~= Seq::<SpecBlock>::empty());
        assert(view_blocks(result.footer@) =~= Seq::<SpecBlock>::empty());
    }
    let mut k: usize = 0;
    assert(ks.skip(0) =~= ks);
    proof {
        reveal_strlit("paragraph");
        reveal_strlit("table");
        reveal_strlit("header");
        reveal_strlit("footer");
        reveal_strlit("page-break");
    }
    while k < kids.len()
        invariant
            k <= kids.len(),
            nv == nodes_view(nodes@),
            ks == kids@.map_values(|j: usize| j as int),
            forall|m: int| 0 <= m < kids.len() ==> el < #[trigger] kids@[m] < nodes.len(),
            spec_elements(nv, cdata@, ks, spec_parsed_empty()) == spec_elements(
                nv,
                cdata@,
                ks.skip(k as int),
                result@,
            ),
        decreases kids.len() - k,
    {
        let c = kids[k];
        let ghost rest = ks.skip(k as int);
        assert(rest[0] == c as int);
        assert(rest.drop_first() =~= ks.skip(k + 1));
        let name = nodes[c].name.as_str();
        if str_eq(name, "paragraph") {
            let b = BlockElement::Paragraph(parse_paragraph(nodes, c, cdata));
            proof {
                lemma_view_blocks_push(result.body@, b);
            }
            result.body.push(b);
        } else if str_eq(name, "table") {
            let b = BlockElement::Table(parse_table(nodes, c, cdata));
            proof {
                lemma_view_blocks_push(result.body@, b);
            }
            result.body.push(b);
        } else if str_eq(name, "header") {
            result.header = parse_blocks(nodes, c, cdata);
        } else if str_eq(name, "footer") {
            result.footer = parse_blocks(nodes, c, cdata);
            result.footer_page_number = parse_footer_page_number(nodes, c);
        } else if str_eq(name, "page-break") {
            let b = BlockElement::PageBreak;
            proof {
                lemma_view_blocks_push(result.body@, b);
            }
            result.body.push(b);
        }
        k = k + 1;
    }
    assert(ks.skip(k as int) =~= Seq::<int>::empty());
    result
}

/// The document a `content.xml` node list describes, or why it is not one.
pub fn document_from_xml(nodes: &Vec<XmlNode>) -> (r: Result<Document, UdfError>)
    ensures
        match r {
            Ok(d) => spec_document(nodes_view(nodes@)) == Ok::<SpecDocument, SpecUdfError>(d@),
            Err(e) => spec_document(nodes_view(nodes@)) == Err::<SpecDocument, SpecUdfError>(e@),
        },
{
    let ghost nv = nodes_view(nodes@);
    proof {
        reveal_strlit("template");
    }
    if nodes.len() == 0 {
        return Err(UdfError::MalformedDocument(String::from_str("missing <template> root element")));
    }
    let roots = element_children_exec(nodes, 0);
    if roots.len() == 0 || !str_eq(nodes[roots[0]].name.as_str(), "template") {
        return Err(UdfError::MalformedDocument(String::from_str("missing <template> root element")));
    }
    let template = roots[0];
    let content_el = match first_child_element(nodes, template, "content") {
        Some(c) => c,
        None => {
            return Err(UdfError::MalformedDocument(String::from_str("missing <content> element")));
        },
    };
    let cdata = node_text(nodes, content_el);
    let pages = match first_child_element(nodes, template, "properties") {
        Some(p) => parse_page_format(nodes, p),
        None => PageFormat::default(),
    };
    let elements_el = first_child_element(nodes, template, "elements");
    let parsed = match elements_el {
        Some(el) => parse_elements(nodes, el, cdata.as_str()),
        None => {
            let p = ParsedElements {
                header: Vec::new(),
                body: Vec::new(),
                footer: Vec::new(),
                footer_page_number: None,
            };
            assert(p@ =~= spec_parsed_empty()) by {
                assert(view_blocks(p.header@) =~= Seq::<SpecBlock>::empty());
                assert(view_blocks(p.body@) =~= Seq::<SpecBlock>::empty());
                assert(view_blocks(p.footer@) =~= Seq::<SpecBlock>::empty());
            }
            p
        },
    };
    let format_id = attr_str(nodes, template, "format_id", "1.8");
    let resolver = match elements_el {
        Some(el) => attr_str(nodes, el, "resolver", "hvl-default"),
        None => String::from_str("hvl-default"),
    };
    let styles = parse_styles(nodes, template);
    let ghost pv = parsed@;
    let doc = Document {
        pages,
        header: parsed.header,
        body: parsed.body,
        footer: parsed.footer,
        footer_page_number: parsed.footer_page_number,
        format_id,
        resolver,
        styles,
    };
    assert(doc@.header == pv.header);
    Ok(doc)
}

/// What parsing `.udf` bytes gives: the archive's `content.xml`, decoded as UTF-8, parsed
/// as XML, read as a document.
pub open spec fn spec_parse(bytes: Seq<u8>) -> Result<SpecDocument, SpecUdfError> {
    match archive_entry(bytes, "content.xml"@) {
        Err(f) => Err(spec_archive_error(f)),
        Ok(x) => if !valid_utf8(x) {
            Err(SpecUdfError::InvalidXml("content.xml is not valid UTF-8"@))
        } else {
            match xml_document_nodes(decode_utf8(x)) {
                Err(m) => Err(SpecUdfError::InvalidXml(m)),
                Ok(nodes) => spec_document(nodes),
            }
        },
    }
}

/// Parse `.udf` bytes into a [`Document`].
pub fn parse(bytes: &[u8]) -> (r: Result<Document, UdfError>)
    ensures
        match r {
            Ok(d) => spec_parse(bytes@) == Ok::<SpecDocument, SpecUdfError>(d@),
            Err(e) => spec_parse(bytes@) == Err::<SpecDocument, SpecUdfError>(e@),
        },
{
    let xml_bytes = match extract_content_xml(bytes) {
        Ok(v) => v,
        Err(e) => {
            return Err(e);
        },
    };
    let xml = match utf8_text(xml_bytes.as_slice()) {
        Some(s) => s,
        None => {
            return Err(UdfError::InvalidXml(String::from_str("content.xml is not valid UTF-8")));
        },
    };
    let nodes = match parse_xml(xml.as_str()) {
        Ok(n) => n,
        Err(m) => {
            return Err(UdfError::InvalidXml(m));
        },
    };
    document_from_xml(&nodes)
}

// ---------------------------------------------------------------------------
// Parsed text is clean
// ---------------------------------------------------------------------------

pub open spec fn text_clean(s: Seq<char>) -> bool {
    forall|j: int| 0 <= j < s.len() ==> s[j] != zwsp()
}

pub open spec fn inline_clean(r: SpecInline) -> bool {
    match r {
        SpecInline::Text { text, .. } => text_clean(text),
        _ => true,
    }
}

pub open spec fn runs_clean(rs: Seq<SpecInline>) -> bool {
    forall|i: int| 0 <= i < rs.len() ==> inline_clean(#[trigger] rs[i])
}

/// Every text run of the blocks (nested tables included) is free of zero-width spaces.
pub open spec fn blocks_clean(bs: Seq<SpecBlock>) -> bool
    decreases bs,
{
    if bs.len() == 0 {
        true
    } else {
        blocks_clean(bs.subrange(0, bs.len() - 1)) && block_clean(bs[bs.len() - 1])
    }
}

pub open spec fn block_clean(b: SpecBlock) -> bool
    decreases b,
{
    match b {
        SpecBlock::Paragraph(p) => runs_clean(p.runs),
        SpecBlock::Table(t) => rows_clean(t.rows),
        SpecBlock::PageBreak => true,
    }
}

pub open spec fn rows_clean(rs: Seq<SpecRow>) -> bool
    decreases rs,
{
    if rs.len() == 0 {
        true
    } else {
        rows_clean(rs.subrange(0, rs.len() - 1)) && cells_clean(rs[rs.len() - 1].cells)
    }
}

pub open spec fn cells_clean(cs: Seq<SpecCell>) -> bool
    decreases cs,
{
    if cs.len() == 0 {
        true
    } else {
        cells_clean(cs.subrange(0, cs.len() - 1)) && blocks_clean(cs[cs.len() - 1].content)
    }
}

proof fn lemma_blocks_clean_iff(bs: Seq<SpecBlock>)
    ensures
        blocks_clean(bs) <==> forall|i: int| 0 <= i < bs.len() ==> #[trigger] block_clean(bs[i]),
    decreases bs.len(),
{
    if bs.len() > 0 {
        let pre = bs.subrange(0, bs.len() - 1);
        lemma_blocks_clean_iff(pre);
        if blocks_clean(bs) {
            assert forall|i: int| 0 <= i < bs.len() implies #[trigger] block_clean(bs[i]) by {
                if i < bs.len() - 1 {
                    assert(pre[i] == bs[i]);
                }
            }
        }
        if forall|i: int| 0 <= i < bs.len() ==> #[trigger] block_clean(bs[i]) {
            assert forall|i: int| 0 <= i < pre.len() implies #[trigger] block_clean(pre[i]) by {
                assert(pre[i] == bs[i]);
                assert(block_clean(bs[i]));
            }
            assert(block_clean(bs[bs.len() - 1]));
        }
    }
}

proof fn lemma_rows_clean_iff(rs: Seq<SpecRow>)
    ensures
        rows_clean(rs) <==> forall|i: int| 0 <= i < rs.len() ==> #[trigger] cells_clean(rs[i].cells),
    decreases rs.len(),
{
    if rs.len() > 0 {
        let pre = rs.subrange(0, rs.len() - 1);
        lemma_rows_clean_iff(pre);
        if rows_clean(rs) {
            assert forall|i: int| 0 <= i < rs.len() implies #[trigger] cells_clean(rs[i].cells) by {
                if i < rs.len() - 1 {
                    assert(pre[i] == rs[i]);
                }
            }
        }
        if forall|i: int| 0 <= i < rs.len() ==> #[trigger] cells_clean(rs[i].cells) {
            assert forall|i: int| 0 <= i < pre.len() implies #[trigger] cells_clean(pre[i].cells) by {
                assert(pre[i] == rs[i]);
                assert(cells_clean(rs[i].cells));
            }
            assert(cells_clean(rs[rs.len() - 1].cells));
        }
    }
}

proof fn lemma_cells_clean_iff(cs: Seq<SpecCell>)
    ensures
        cells_clean(cs) <==> forall|j: int| 0 <= j < cs.len() ==> #[trigger] blocks_clean(cs[j].content),
    decreases cs.len(),
{
    if cs.len() > 0 {
        let pre = cs.subrange(0, cs.len() - 1);
        lemma_cells_clean_iff(pre);
        if cells_clean(cs) {
            assert forall|j: int| 0 <= j < cs.len() implies #[trigger] blocks_clean(cs[j].content) by {
                if j < cs.len() - 1 {
                    assert(pre[j] == cs[j]);
                }
            }
        }
        if forall|j: int| 0 <= j < cs.len() ==> #[trigger] blocks_clean(cs[j].content) {
            assert forall|j: int| 0 <= j < pre.len() implies #[trigger] blocks_clean(pre[j].content) by {
                assert(pre[j] == cs[j]);
                assert(blocks_clean(cs[j].content));
            }
            assert(blocks_clean(cs[cs.len() - 1].content));
        }
    }
}

proof fn lemma_runs_clean(
    nodes: Seq<SpecXmlNode>,
    cdata: Seq<char>,
    kids: Seq<int>,
    child_count: int,
    has_list_attr: bool,
)
    ensures
        runs_clean(spec_runs(nodes, cdata, kids, child_count, has_list_attr).0),
    decreases kids.len(),
{
    if kids.len() > 0 {
        lemma_runs_clean(nodes, cdata, kids.drop_first(), child_count, has_list_attr);
        let n = nodes[kids[0]];
        lemma_run_text_is_clean(n, cdata);
        let rest = spec_runs(nodes, cdata, kids.drop_first(), child_count, has_list_attr).0;
        let first = if n.name == "content"@ {
            SpecInline::Text { text: spec_run_text(n, cdata), style: spec_font_style(n) }
        } else if n.name == "image"@ {
            spec_image_run(n)
        } else {
            SpecInline::Tab { style: spec_font_style(n) }
        };
        assert(inline_clean(first));
        assert forall|i: int| 0 <= i < (seq![first] + rest).len() implies inline_clean(
            #[trigger] (seq![first] + rest)[i],
        ) by {
            if i > 0 {
                assert((seq![first] + rest)[i] == rest[i - 1]);
            }
        }
    }
}

proof fn lemma_paragraph_clean(nodes: Seq<SpecXmlNode>, cdata: Seq<char>, c: int)
    ensures
        block_clean(SpecBlock::Paragraph(spec_paragraph(nodes, cdata, c))),
{
    lemma_runs_clean(
        nodes,
        cdata,
        element_children(nodes, c),
        element_children(nodes, c).len() as int,
        spec_attr_opt(nodes[c], "Bulleted"@) is Some || spec_attr_opt(nodes[c], "Numbered"@) is Some,
    );
}

proof fn lemma_table_clean(nodes: Seq<SpecXmlNode>, cdata: Seq<char>, e: int)
    ensures
        block_clean(SpecBlock::Table(spec_table(nodes, cdata, e))),
    decreases nodes.len() - e + 1, 0int,
{
    if 0 <= e < nodes.len() {
        let n = nodes[e];
        let spans = spec_csv(spec_attr_str(n, "columnSpans"@, Seq::empty()));
        let cols = spec_columns(spec_attr_i32(n, "columnCount"@, 0), spans.len() as int);
        let widths = spec_column_widths(spans, cols);
        let heights = spec_csv(spec_attr_str(n, "rowSpans"@, Seq::empty()));
        lemma_rows_clean(nodes, cdata, e, named_children(nodes, e, "row"@), spec_inherited(n), widths, heights, 0);
    } else {
        assert(spec_default_table().rows =~= Seq::<SpecRow>::empty());
    }
}

proof fn lemma_rows_clean(
    nodes: Seq<SpecXmlNode>,
    cdata: Seq<char>,
    p: int,
    kids: Seq<int>,
    inh: SpecInherited,
    widths: Seq<Num>,
    heights: Seq<Num>,
    i: int,
)
    ensures
        rows_clean(spec_rows(nodes, cdata, p, kids, inh, widths, heights, i)),
    decreases nodes.len() - p, kids.len(),
{
    let rs = spec_rows(nodes, cdata, p, kids, inh, widths, heights, i);
    if !(kids.len() == 0 || !(0 <= p < kids[0] < nodes.len())) {
        lemma_row_clean(nodes, cdata, kids[0], inh, widths);
        lemma_rows_clean(nodes, cdata, p, kids.drop_first(), inh, widths, heights, i + 1);
        let rest = spec_rows(nodes, cdata, p, kids.drop_first(), inh, widths, heights, i + 1);
        lemma_rows_clean_iff(rest);
        assert forall|a: int| 0 <= a < rs.len() implies #[trigger] cells_clean(rs[a].cells) by {
            if a > 0 {
                assert(rs[a] == rest[a - 1]);
            }
        }
    }
    lemma_rows_clean_iff(rs);
}

proof fn lemma_row_clean(nodes: Seq<SpecXmlNode>, cdata: Seq<char>, e: int, inh: SpecInherited, widths: Seq<Num>)
    ensures
        cells_clean(spec_row(nodes, cdata, e, inh, widths).cells),
    decreases nodes.len() - e + 1, 0int,
{
    if 0 <= e < nodes.len() {
        let n = nodes[e];
        let row_widths = spec_csv(spec_attr_str(n, "columnSpans"@, Seq::empty()));
        lemma_cells_clean(nodes, cdata, e, named_children(nodes, e, "cell"@), inh, widths, row_widths, 0);
    } else {
        assert(spec_default_row().cells =~= Seq::<SpecCell>::empty());
    }
}

proof fn lemma_cells_clean(
    nodes: Seq<SpecXmlNode>,
    cdata: Seq<char>,
    p: int,
    kids: Seq<int>,
    inh: SpecInherited,
    widths: Seq<Num>,
    row_widths: Seq<Num>,
    i: int,
)
    ensures
        cells_clean(spec_cells(nodes, cdata, p, kids, inh, widths, row_widths, i)),
    decreases nodes.len() - p, kids.len(),
{
    let cs = spec_cells(nodes, cdata, p, kids, inh, widths, row_widths, i);
    if !(kids.len() == 0 || !(0 <= p < kids[0] < nodes.len())) {
        lemma_cell_clean(nodes, cdata, kids[0], inh);
        lemma_cells_clean(nodes, cdata, p, kids.drop_first(), inh, widths, row_widths, i + 1);
        let rest = spec_cells(nodes, cdata, p, kids.drop_first(), inh, widths, row_widths, i + 1);
        lemma_cells_clean_iff(rest);
        assert forall|j: int| 0 <= j < cs.len() implies #[trigger] blocks_clean(cs[j].content) by {
            if j > 0 {
                assert(cs[j] == rest[j - 1]);
            }
        }
    }
    lemma_cells_clean_iff(cs);
}

proof fn lemma_cell_clean(nodes: Seq<SpecXmlNode>, cdata: Seq<char>, e: int, inh: SpecInherited)
    ensures
        blocks_clean(spec_cell(nodes, cdata, e, inh).content),
    decreases nodes.len() - e + 1, 0int,
{
    if 0 <= e < nodes.len() {
        lemma_cell_blocks_clean(nodes, cdata, e, element_children(nodes, e));
    } else {
        assert(spec_default_cell().content =~= Seq::<SpecBlock>::empty());
    }
}

proof fn lemma_cell_blocks_clean(nodes: Seq<SpecXmlNode>, cdata: Seq<char>, p: int, kids: Seq<int>)
    ensures
        blocks_clean(spec_cell_blocks(nodes, cdata, p, kids)),
    decreases nodes.len() - p, kids.len(),
{
    let bs = spec_cell_blocks(nodes, cdata, p, kids);
    if !(kids.len() == 0 || !(0 <= p < kids[0] < nodes.len())) {
        let c = kids[0];
        lemma_cell_blocks_clean(nodes, cdata, p, kids.drop_first());
        let rest = spec_cell_blocks(nodes, cdata, p, kids.drop_first());
        lemma_blocks_clean_iff(rest);
        if nodes[c].name == "paragraph"@ {
            lemma_paragraph_clean(nodes, cdata, c);
        } else if nodes[c].name == "table"@ {
            lemma_table_clean(nodes, cdata, c);
        }
        assert forall|i: int| 0 <= i < bs.len() implies #[trigger] block_clean(bs[i]) by {
            if i > 0 && (nodes[c].name == "paragraph"@ || nodes[c].name == "table"@) {
                assert(bs[i] == rest[i - 1]);
            }
        }
    }
    lemma_blocks_clean_iff(bs);
}

proof fn lemma_push_clean(bs: Seq<SpecBlock>, b: SpecBlock)
    requires
        blocks_clean(bs),
        block_clean(b),
    ensures
        blocks_clean(bs.push(b)),
{
    assert(bs.push(b).subrange(0, bs.len() as int) =~= bs);
}

proof fn lemma_elements_clean(nodes: Seq<SpecXmlNode>, cdata: Seq<char>, kids: Seq<int>, acc: SpecParsed)
    requires
        blocks_clean(acc.header),
        blocks_clean(acc.body),
        blocks_clean(acc.footer),
    ensures
        blocks_clean(spec_elements(nodes, cdata, kids, acc).header),
        blocks_clean(spec_elements(nodes, cdata, kids, acc).body),
        blocks_clean(spec_elements(nodes, cdata, kids, acc).footer),
    decreases kids.len(),
{
    if kids.len() > 0 {
        let c = kids[0];
        let name = nodes[c].name;
        if name == "paragraph"@ {
            let b = SpecBlock::Paragraph(spec_paragraph(nodes, cdata, c));
            lemma_paragraph_clean(nodes, cdata, c);
            lemma_push_clean(acc.body, b);
            lemma_elements_clean(nodes, cdata, kids.drop_first(), SpecParsed { body: acc.body.push(b), ..acc });
        } else if name == "table"@ {
            let b = SpecBlock::Table(spec_table(nodes, cdata, c));
            lemma_table_clean(nodes, cdata, c);
            lemma_push_clean(acc.body, b);
            lemma_elements_clean(nodes, cdata, kids.drop_first(), SpecParsed { body: acc.body.push(b), ..acc });
        } else if name == "header"@ {
            lemma_cell_blocks_clean(nodes, cdata, c, element_children(nodes, c));
            lemma_elements_clean(
                nodes,
                cdata,
                kids.drop_first(),
                SpecParsed { header: spec_section(nodes, cdata, c), ..acc },
            );
        } else if name == "footer"@ {
            lemma_cell_blocks_clean(nodes, cdata, c, element_children(nodes, c));
            lemma_elements_clean(
                nodes,
                cdata,
                kids.drop_first(),
                SpecParsed {
                    footer: spec_section(nodes, cdata, c),
                    footer_page_number: spec_footer_page_number(nodes[c]),
                    ..acc
                },
            );
        } else if name == "page-break"@ {
            lemma_push_clean(acc.body, SpecBlock::PageBreak);
            lemma_elements_clean(
                nodes,
                cdata,
                kids.drop_first(),
                SpecParsed { body: acc.body.push(SpecBlock::PageBreak), ..acc },
            );
        } else {
            lemma_elements_clean(nodes, cdata, kids.drop_first(), acc);
        }
    }
}

/// The text runs of every parsed document, in header, body and footer and in nested
/// tables, hold no zero-width space: run text is sliced, then cleaned, before it reaches
/// the model.
pub proof fn lemma_parsed_text_is_clean(bytes: Seq<u8>)
    ensures
        spec_parse(bytes) matches Ok(d) ==> blocks_clean(d.header) && blocks_clean(d.body)
            && blocks_clean(d.footer),
{
    if let Ok(d) = spec_parse(bytes) {
        let x = archive_entry(bytes, "content.xml"@)->Ok_0;
        let nodes = xml_document_nodes(decode_utf8(x))->Ok_0;
        let roots = element_children(nodes, 0);
        let t = roots[0];
        let c = spec_first_child_element(nodes, t, "content"@)->Some_0;
        let cdata = spec_node_text(nodes, c);
        match spec_first_child_element(nodes, t, "elements"@) {
            Some(e) => lemma_elements_clean(nodes, cdata, element_children(nodes, e), spec_parsed_empty()),
            None => {},
        }
    }
}

} // verus!
