//! The document model the parser produces and both renderers consume.
//!
//! Run text stored here is already rune-sliced and cleaned by the parser; renderers never
//! see raw CDATA or character offsets. Defaults are the attribute fallbacks the parser
//! uses, so a default here is the value a document gets for an omitted attribute.
//!
//! Every type has a mathematical view (`Spec*`): strings become `Seq<char>`, vectors
//! become `Seq`s of views. Contracts speak of these views.

use vstd::prelude::*;
use crate::num::Num;

verus! {

// ---------------------------------------------------------------------------
// Views
// ---------------------------------------------------------------------------

pub struct SpecDocument {
    pub pages: PageFormat,
    pub header: Seq<SpecBlock>,
    pub body: Seq<SpecBlock>,
    pub footer: Seq<SpecBlock>,
    pub footer_page_number: Option<SpecFooterPageNumber>,
    pub format_id: Seq<char>,
    pub resolver: Seq<char>,
    pub styles: Seq<SpecStyle>,
}

pub enum SpecBlock {
    Paragraph(SpecParagraph),
    Table(SpecTable),
    PageBreak,
}

pub enum SpecInline {
    Text { text: Seq<char>, style: SpecTextStyle },
    Image { data: Seq<char>, width: Num, height: Num },
    Tab { style: SpecTextStyle },
}

pub struct SpecTextStyle {
    pub font_family: Seq<char>,
    pub font_size: Num,
    pub bold: bool,
    pub italic: bool,
    pub underline: bool,
    pub strikethrough: bool,
    pub color: i32,
    pub background_color: i32,
}

pub struct SpecList {
    pub list_type: ListType,
    pub number_type: Option<Seq<char>>,
    pub bullet_type: Option<Seq<char>>,
    pub level: i32,
    pub list_id: Option<i32>,
}

pub struct SpecParagraph {
    pub alignment: Alignment,
    pub left_indent: Num,
    pub right_indent: Num,
    pub first_line_indent: Num,
    pub line_spacing: Num,
    pub space_before: Num,
    pub space_after: Num,
    pub runs: Seq<SpecInline>,
    pub list: Option<SpecList>,
    pub tab_stops: Seq<Num>,
    pub empty_content_style: Option<SpecTextStyle>,
}

pub struct SpecBorder {
    pub name: Seq<char>,
    pub style: Seq<char>,
}

pub struct SpecCell {
    pub colspan: i32,
    pub rowspan: i32,
    pub vertical_align: VerticalAlignment,
    pub fill_color: i32,
    pub border: SpecBorder,
    pub border_width: Num,
    pub border_color: i32,
    pub border_spec: i32,
    pub width: Option<Num>,
    pub content: Seq<SpecBlock>,
}

pub struct SpecRow {
    pub name: Seq<char>,
    pub row_type: Seq<char>,
    pub height: Num,
    pub height_min: Option<Num>,
    pub border: SpecBorder,
    pub valign: Option<Seq<char>>,
    pub cells: Seq<SpecCell>,
}

pub struct SpecTable {
    pub name: Seq<char>,
    pub columns: i32,
    pub column_widths: Seq<Num>,
    pub border: SpecBorder,
    pub rows: Seq<SpecRow>,
    pub align: Option<Seq<char>>,
    pub width: Option<Seq<char>>,
    pub cellpadding: Option<Num>,
    pub cellspacing: Option<Num>,
    pub border_width: Option<Num>,
    pub border_color: Option<i32>,
    pub border_spec: Option<i32>,
}

pub struct SpecFooterPageNumber {
    pub spec: Seq<char>,
    pub font_face: Seq<char>,
    pub font_size: Num,
    pub font_bold: bool,
    pub font_italic: bool,
    pub color: i32,
    pub fore_str: Seq<char>,
    pub page_start_num_str: Seq<char>,
    pub extra_attributes: Seq<SpecAttr>,
}

pub struct SpecAttr {
    pub name: Seq<char>,
    pub value: Seq<char>,
}

pub struct SpecStyle {
    pub name: Seq<char>,
    pub attributes: Seq<SpecAttr>,
}

// ---------------------------------------------------------------------------
// Document
// ---------------------------------------------------------------------------

/// A fully parsed UDF document.
#[derive(Debug)]
pub struct Document {
    pub pages: PageFormat,
    pub header: Vec<BlockElement>,
    pub body: Vec<BlockElement>,
    pub footer: Vec<BlockElement>,
    pub footer_page_number: Option<FooterPageNumber>,
    pub format_id: String,
    pub resolver: String,
    pub styles: Vec<DocumentStyle>,
}

/// A block-level element in document order.
#[derive(Debug)]
pub enum BlockElement {
    Paragraph(Paragraph),
    Table(Table),
    PageBreak,
}

/// Horizontal paragraph alignment. Raw values: left=0, center=1, right=2, justify=3.
#[derive(Clone, Copy, Debug, PartialEq, Eq, Structural)]
pub enum Alignment {
    Left,
    Center,
    Right,
    Justify,
}

pub open spec fn spec_alignment_from_attr(value: Option<Seq<char>>) -> Alignment {
    if value == Some("1"@) {
        Alignment::Center
    } else if value == Some("2"@) {
        Alignment::Right
    } else if value == Some("3"@) {
        Alignment::Justify
    } else {
        Alignment::Left
    }
}

pub open spec fn spec_alignment_raw(a: Alignment) -> i32 {
    match a {
        Alignment::Left => 0,
        Alignment::Center => 1,
        Alignment::Right => 2,
        Alignment::Justify => 3,
    }
}

/// Reading back the raw value UYAP writes for an alignment gives that alignment.
pub proof fn lemma_alignment_raw_round_trip(a: Alignment)
    ensures
        spec_alignment_from_attr(Some(crate::text::decimal(spec_alignment_raw(a) as nat))) == a,
{
    reveal_strlit("1");
    reveal_strlit("2");
    reveal_strlit("3");
    let d = crate::text::decimal(spec_alignment_raw(a) as nat);
    assert(d.len() == 1);
    assert(d =~= seq![crate::text::digit_char(spec_alignment_raw(a) as int)]);
    match a {
        Alignment::Left => {
            assert(d[0] == '0');
            assert(d != "1"@ && d != "2"@ && d != "3"@);
        },
        Alignment::Center => assert(d =~= "1"@),
        Alignment::Right => {
            assert(d =~= "2"@);
            assert(d[0] == '2' && "1"@[0] == '1');
            assert(d != "1"@);
        },
        Alignment::Justify => {
            assert(d =~= "3"@);
            assert(d[0] == '3' && "1"@[0] == '1' && "2"@[0] == '2');
            assert(d != "1"@ && d != "2"@);
        },
    }
}

impl Alignment {
    /// Map the `Alignment` attribute: "1" center, "2" right, "3" justify; anything else
    /// (including "0" and a missing attribute) left.
    pub fn from_attr(value: Option<&str>) -> (r: Alignment)
        ensures
            r == spec_alignment_from_attr(
                match value {
                    Some(s) => Some(s@),
                    None => None,
                },
            ),
    {
        proof {
            reveal_strlit("1");
            reveal_strlit("2");
            reveal_strlit("3");
        }
        match value {
            Some(s) => {
                if crate::text::str_eq(s, "1") {
                    Alignment::Center
                } else if crate::text::str_eq(s, "2") {
                    Alignment::Right
                } else if crate::text::str_eq(s, "3") {
                    Alignment::Justify
                } else {
                    Alignment::Left
                }
            },
            None => Alignment::Left,
        }
    }

    /// The integer raw value UYAP writes.
    pub fn raw(self) -> (r: i32)
        ensures
            r == spec_alignment_raw(self),
    {
        match self {
            Alignment::Left => 0,
            Alignment::Center => 1,
            Alignment::Right => 2,
            Alignment::Justify => 3,
        }
    }
}

/// An inline run: text, an embedded image, or a tab.
#[derive(Debug)]
pub enum InlineElement {
    Text(TextRun),
    Image(ImageRun),
    Tab(TabRun),
}

/// A styled run of text, already sliced and cleaned (zero-width spaces removed).
#[derive(Debug)]
pub struct TextRun {
    pub text: String,
    pub style: TextStyle,
}

/// A tab occurrence within a paragraph's run sequence.
#[derive(Debug)]
pub struct TabRun {
    pub style: TextStyle,
}

/// An embedded image. `data` is the raw (possibly whitespace-laden) base64 text from the
/// UDF; renderers strip whitespace before emitting it. Width and height are in points.
#[derive(Debug)]
pub struct ImageRun {
    pub data: String,
    pub width: Num,
    pub height: Num,
}

/// List kind.
#[derive(Clone, Copy, Debug, PartialEq, Eq, Structural)]
pub enum ListType {
    Numbered,
    Bulleted,
}

/// List membership and formatting of a paragraph.
#[derive(Debug)]
pub struct ListProperties {
    pub list_type: ListType,
    pub number_type: Option<String>,
    pub bullet_type: Option<String>,
    /// 0-based nesting depth.
    pub level: i32,
    pub list_id: Option<i32>,
}

/// A paragraph: a sequence of inline runs plus block formatting. `line_spacing` is an
/// offset from single spacing (0 = single, 0.5 = 1.5x, 1 = double).
#[derive(Debug)]
pub struct Paragraph {
    pub alignment: Alignment,
    pub left_indent: Num,
    pub right_indent: Num,
    pub first_line_indent: Num,
    pub line_spacing: Num,
    pub space_before: Num,
    pub space_after: Num,
    pub runs: Vec<InlineElement>,
    pub list: Option<ListProperties>,
    pub tab_stops: Vec<Num>,
    /// Font of the empty-paragraph placeholder, so a blank line keeps its font.
    pub empty_content_style: Option<TextStyle>,
}

/// Character-level styling; `color` and `background_color` are signed ARGB values.
#[derive(Debug)]
pub struct TextStyle {
    pub font_family: String,
    pub font_size: Num,
    pub bold: bool,
    pub italic: bool,
    pub underline: bool,
    pub strikethrough: bool,
    pub color: i32,
    pub background_color: i32,
}

/// Border name and style tokens ("borderCell"/"borderTable"/"borderNone" and
/// "borderStyle-solid"/"borderStyle-none").
#[derive(Debug)]
pub struct BorderStyle {
    pub name: String,
    pub style: String,
}

/// Vertical alignment of cell content.
#[derive(Clone, Copy, Debug, PartialEq, Eq, Structural)]
pub enum VerticalAlignment {
    Top,
    Middle,
    Bottom,
}

pub open spec fn spec_vertical_from_attr(value: Option<Seq<char>>) -> VerticalAlignment {
    if value == Some("vcenter"@) || value == Some("center"@) || value == Some("middle"@) {
        VerticalAlignment::Middle
    } else if value == Some("bottom"@) {
        VerticalAlignment::Bottom
    } else {
        VerticalAlignment::Top
    }
}

impl VerticalAlignment {
    /// "vcenter", "center" or "middle" is middle, "bottom" is bottom, anything else top.
    pub fn from_attr(value: Option<&str>) -> (r: VerticalAlignment)
        ensures
            r == spec_vertical_from_attr(
                match value {
                    Some(s) => Some(s@),
                    None => None,
                },
            ),
    {
        match value {
            Some(s) => {
                if crate::text::str_eq(s, "vcenter") || crate::text::str_eq(s, "center")
                    || crate::text::str_eq(s, "middle") {
                    VerticalAlignment::Middle
                } else if crate::text::str_eq(s, "bottom") {
                    VerticalAlignment::Bottom
                } else {
                    VerticalAlignment::Top
                }
            },
            None => VerticalAlignment::Top,
        }
    }
}

#[derive(Debug)]
pub struct TableCell {
    pub colspan: i32,
    pub rowspan: i32,
    pub vertical_align: VerticalAlignment,
    /// ARGB; the default 16777215 is white.
    pub fill_color: i32,
    pub border: BorderStyle,
    pub border_width: Num,
    /// ARGB; as a border colour, `0` renders opaque black.
    pub border_color: i32,
    /// Bitmask: top=1, right=2, bottom=4, left=8.
    pub border_spec: i32,
    /// Relative width (from the row or table column spans).
    pub width: Option<Num>,
    /// Cell content; nested tables appear as `BlockElement::Table`.
    pub content: Vec<BlockElement>,
}

#[derive(Debug)]
pub struct TableRow {
    pub name: String,
    pub row_type: String,
    /// Actual height (from the table's row spans).
    pub height: Num,
    /// User-set minimum height.
    pub height_min: Option<Num>,
    pub border: BorderStyle,
    /// Row vertical-align token (kept, never emitted).
    pub valign: Option<String>,
    pub cells: Vec<TableCell>,
}

#[derive(Debug)]
pub struct Table {
    pub name: String,
    pub columns: i32,
    pub column_widths: Vec<Num>,
    pub border: BorderStyle,
    pub rows: Vec<TableRow>,
    pub align: Option<String>,
    /// e.g. "16.00cm": text in the UDF, not a number.
    pub width: Option<String>,
    pub cellpadding: Option<Num>,
    pub cellspacing: Option<Num>,
    pub border_width: Option<Num>,
    pub border_color: Option<i32>,
    pub border_spec: Option<i32>,
}

/// Page geometry from `<pageFormat>`.
#[derive(Clone, Copy, Debug, PartialEq, Eq, Structural)]
pub struct PageFormat {
    /// 1 = A4.
    pub media_size_name: i32,
    pub left_margin: Num,
    pub right_margin: Num,
    pub top_margin: Num,
    pub bottom_margin: Num,
    /// 1 = portrait, 2 = landscape.
    pub paper_orientation: i32,
    pub header_f_offset: Num,
    pub footer_f_offset: Num,
}

/// Metadata of the optional page-number glyph in a footer, kept verbatim.
#[derive(Debug)]
pub struct FooterPageNumber {
    pub spec: String,
    pub font_face: String,
    pub font_size: Num,
    pub font_bold: bool,
    pub font_italic: bool,
    pub color: i32,
    pub fore_str: String,
    pub page_start_num_str: String,
    /// The footer's other attributes, sorted by name, each name once.
    pub extra_attributes: Vec<StyleAttribute>,
}

/// One non-`name` attribute of a `<style>`, kept verbatim in document order.
#[derive(Debug)]
pub struct StyleAttribute {
    pub name: String,
    pub value: String,
}

/// One `<style>` definition from a document's `<styles>` block.
#[derive(Debug)]
pub struct DocumentStyle {
    pub name: String,
    pub attributes: Vec<StyleAttribute>,
}

// ---------------------------------------------------------------------------
// View functions
// ---------------------------------------------------------------------------

impl View for TextStyle {
    type V = SpecTextStyle;

    open spec fn view(&self) -> SpecTextStyle {
        SpecTextStyle {
            font_family: self.font_family@,
            font_size: self.font_size,
            bold: self.bold,
            italic: self.italic,
            underline: self.underline,
            strikethrough: self.strikethrough,
            color: self.color,
            background_color: self.background_color,
        }
    }
}

pub open spec fn opt_str_view(o: Option<String>) -> Option<Seq<char>> {
    match o {
        Some(s) => Some(s@),
        None => None,
    }
}

impl View for InlineElement {
    type V = SpecInline;

    open spec fn view(&self) -> SpecInline {
        match self {
            InlineElement::Text(t) => SpecInline::Text { text: t.text@, style: t.style@ },
            InlineElement::Image(i) => SpecInline::Image {
                data: i.data@,
                width: i.width,
                height: i.height,
            },
            InlineElement::Tab(t) => SpecInline::Tab { style: t.style@ },
        }
    }
}

impl View for ListProperties {
    type V = SpecList;

    open spec fn view(&self) -> SpecList {
        SpecList {
            list_type: self.list_type,
            number_type: opt_str_view(self.number_type),
            bullet_type: opt_str_view(self.bullet_type),
            level: self.level,
            list_id: self.list_id,
        }
    }
}

impl View for Paragraph {
    type V = SpecParagraph;

    open spec fn view(&self) -> SpecParagraph {
        SpecParagraph {
            alignment: self.alignment,
            left_indent: self.left_indent,
            right_indent: self.right_indent,
            first_line_indent: self.first_line_indent,
            line_spacing: self.line_spacing,
            space_before: self.space_before,
            space_after: self.space_after,
            runs: self.runs@.map_values(|r: InlineElement| r@),
            list: match self.list {
                Some(l) => Some(l@),
                None => None,
            },
            tab_stops: self.tab_stops@,
            empty_content_style: match self.empty_content_style {
                Some(t) => Some(t@),
                None => None,
            },
        }
    }
}

impl View for BorderStyle {
    type V = SpecBorder;

    open spec fn view(&self) -> SpecBorder {
        SpecBorder { name: self.name@, style: self.style@ }
    }
}

impl View for StyleAttribute {
    type V = SpecAttr;

    open spec fn view(&self) -> SpecAttr {
        SpecAttr { name: self.name@, value: self.value@ }
    }
}

impl View for DocumentStyle {
    type V = SpecStyle;

    open spec fn view(&self) -> SpecStyle {
        SpecStyle { name: self.name@, attributes: self.attributes@.map_values(|a: StyleAttribute| a@) }
    }
}

impl View for FooterPageNumber {
    type V = SpecFooterPageNumber;

    open spec fn view(&self) -> SpecFooterPageNumber {
        SpecFooterPageNumber {
            spec: self.spec@,
            font_face: self.font_face@,
            font_size: self.font_size,
            font_bold: self.font_bold,
            font_italic: self.font_italic,
            color: self.color,
            fore_str: self.fore_str@,
            page_start_num_str: self.page_start_num_str@,
            extra_attributes: self.extra_attributes@.map_values(|a: StyleAttribute| a@),
        }
    }
}

pub open spec fn view_blocks(s: Seq<BlockElement>) -> Seq<SpecBlock>
    decreases s,
{
    if s.len() == 0 {
        Seq::empty()
    } else {
        view_blocks(s.subrange(0, s.len() - 1)).push(view_block(s[s.len() - 1]))
    }
}

pub open spec fn view_block(b: BlockElement) -> SpecBlock
    decreases b,
{
    match b {
        BlockElement::Paragraph(p) => SpecBlock::Paragraph(p@),
        BlockElement::Table(t) => SpecBlock::Table(view_table(t)),
        BlockElement::PageBreak => SpecBlock::PageBreak,
    }
}

pub open spec fn view_table(t: Table) -> SpecTable
    decreases t,
{
    SpecTable {
        name: t.name@,
        columns: t.columns,
        column_widths: t.column_widths@,
        border: t.border@,
        rows: view_rows(t.rows@),
        align: opt_str_view(t.align),
        width: opt_str_view(t.width),
        cellpadding: t.cellpadding,
        cellspacing: t.cellspacing,
        border_width: t.border_width,
        border_color: t.border_color,
        border_spec: t.border_spec,
    }
}

pub open spec fn view_rows(s: Seq<TableRow>) -> Seq<SpecRow>
    decreases s,
{
    if s.len() == 0 {
        Seq::empty()
    } else {
        view_rows(s.subrange(0, s.len() - 1)).push(view_row(s[s.len() - 1]))
    }
}

pub open spec fn view_row(r: TableRow) -> SpecRow
    decreases r,
{
    SpecRow {
        name: r.name@,
        row_type: r.row_type@,
        height: r.height,
        height_min: r.height_min,
        border: r.border@,
        valign: opt_str_view(r.valign),
        cells: view_cells(r.cells@),
    }
}

pub open spec fn view_cells(s: Seq<TableCell>) -> Seq<SpecCell>
    decreases s,
{
    if s.len() == 0 {
        Seq::empty()
    } else {
        view_cells(s.subrange(0, s.len() - 1)).push(view_cell(s[s.len() - 1]))
    }
}

pub open spec fn view_cell(c: TableCell) -> SpecCell
    decreases c,
{
    SpecCell {
        colspan: c.colspan,
        rowspan: c.rowspan,
        vertical_align: c.vertical_align,
        fill_color: c.fill_color,
        border: c.border@,
        border_width: c.border_width,
        border_color: c.border_color,
        border_spec: c.border_spec,
        width: c.width,
        content: view_blocks(c.content@),
    }
}

pub proof fn lemma_view_blocks(s: Seq<BlockElement>)
    ensures
        view_blocks(s).len() == s.len(),
        forall|i: int| 0 <= i < s.len() ==> #[trigger] view_blocks(s)[i] == view_block(s[i]),
    decreases s.len(),
{
    if s.len() > 0 {
        lemma_view_blocks(s.subrange(0, s.len() - 1));
    }
}

pub proof fn lemma_view_rows(s: Seq<TableRow>)
    ensures
        view_rows(s).len() == s.len(),
        forall|i: int| 0 <= i < s.len() ==> #[trigger] view_rows(s)[i] == view_row(s[i]),
    decreases s.len(),
{
    if s.len() > 0 {
        lemma_view_rows(s.subrange(0, s.len() - 1));
    }
}

pub proof fn lemma_view_cells(s: Seq<TableCell>)
    ensures
        view_cells(s).len() == s.len(),
        forall|i: int| 0 <= i < s.len() ==> #[trigger] view_cells(s)[i] == view_cell(s[i]),
    decreases s.len(),
{
    if s.len() > 0 {
        lemma_view_cells(s.subrange(0, s.len() - 1));
    }
}

impl View for Document {
    type V = SpecDocument;

    open spec fn view(&self) -> SpecDocument {
        SpecDocument {
            pages: self.pages,
            header: view_blocks(self.header@),
            body: view_blocks(self.body@),
            footer: view_blocks(self.footer@),
            footer_page_number: match self.footer_page_number {
                Some(f) => Some(f@),
                None => None,
            },
            format_id: self.format_id@,
            resolver: self.resolver@,
            styles: self.styles@.map_values(|s: DocumentStyle| s@),
        }
    }
}

// ---------------------------------------------------------------------------
// Defaults
// ---------------------------------------------------------------------------

pub open spec fn spec_default_text_style() -> SpecTextStyle {
    SpecTextStyle {
        font_family: "Times New Roman"@,
        font_size: Num { nanos: 12_000_000_000 },
        bold: false,
        italic: false,
        underline: false,
        strikethrough: false,
        color: -16777216i32,
        background_color: -1i32,
    }
}

impl Default for TextStyle {
    /// Times New Roman 12pt, black (`0xFF000000`) on white (`0xFFFFFFFF`).
    fn default() -> (r: TextStyle)
        ensures
            r@ == spec_default_text_style(),
    {
        TextStyle {
            font_family: String::from_str("Times New Roman"),
            font_size: Num { nanos: 12_000_000_000 },
            bold: false,
            italic: false,
            underline: false,
            strikethrough: false,
            color: -16777216,
            background_color: -1,
        }
    }
}

pub open spec fn spec_default_border() -> SpecBorder {
    SpecBorder { name: "borderCell"@, style: "borderStyle-solid"@ }
}

impl Default for BorderStyle {
    /// "borderCell" / "borderStyle-solid".
    fn default() -> (r: BorderStyle)
        ensures
            r@ == spec_default_border(),
    {
        BorderStyle {
            name: String::from_str("borderCell"),
            style: String::from_str("borderStyle-solid"),
        }
    }
}

pub open spec fn spec_default_page_format() -> PageFormat {
    PageFormat {
        media_size_name: 1,
        left_margin: Num { nanos: 42_520_000_000 },
        right_margin: Num { nanos: 28_350_000_000 },
        top_margin: Num { nanos: 14_170_000_000 },
        bottom_margin: Num { nanos: 14_170_000_000 },
        paper_orientation: 1,
        header_f_offset: Num { nanos: 20_000_000_000 },
        footer_f_offset: Num { nanos: 20_000_000_000 },
    }
}

impl Default for PageFormat {
    /// A4 portrait with the editor's default margins.
    fn default() -> (r: PageFormat)
        ensures
            r == spec_default_page_format(),
    {
        PageFormat {
            media_size_name: 1,
            left_margin: Num { nanos: 42_520_000_000 },
            right_margin: Num { nanos: 28_350_000_000 },
            top_margin: Num { nanos: 14_170_000_000 },
            bottom_margin: Num { nanos: 14_170_000_000 },
            paper_orientation: 1,
            header_f_offset: Num { nanos: 20_000_000_000 },
            footer_f_offset: Num { nanos: 20_000_000_000 },
        }
    }
}

pub open spec fn spec_default_cell() -> SpecCell {
    SpecCell {
        colspan: 1,
        rowspan: 1,
        vertical_align: VerticalAlignment::Top,
        fill_color: 16777215,
        border: spec_default_border(),
        border_width: Num { nanos: 500_000_000 },
        border_color: 0,
        border_spec: 15,
        width: None,
        content: Seq::empty(),
    }
}

impl Default for TableCell {
    /// One column and row, top-aligned, white fill, solid 0.5pt black borders on all edges.
    fn default() -> (r: TableCell)
        ensures
            view_cell(r) == spec_default_cell(),
    {
        let r = TableCell {
            colspan: 1,
            rowspan: 1,
            vertical_align: VerticalAlignment::Top,
            fill_color: 16777215,
            border: BorderStyle::default(),
            border_width: Num { nanos: 500_000_000 },
            border_color: 0,
            border_spec: 15,
            width: None,
            content: Vec::new(),
        };
        assert(view_blocks(r.content@) =~= Seq::empty());
        r
    }
}

pub open spec fn spec_default_row() -> SpecRow {
    SpecRow {
        name: "row1"@,
        row_type: "dataRow"@,
        height: Num { nanos: 0 },
        height_min: None,
        border: spec_default_border(),
        valign: None,
        cells: Seq::empty(),
    }
}

impl Default for TableRow {
    fn default() -> (r: TableRow)
        ensures
            view_row(r) == spec_default_row(),
    {
        let r = TableRow {
            name: String::from_str("row1"),
            row_type: String::from_str("dataRow"),
            height: Num { nanos: 0 },
            height_min: None,
            border: BorderStyle::default(),
            valign: None,
            cells: Vec::new(),
        };
        assert(view_cells(r.cells@) =~= Seq::empty());
        r
    }
}

pub open spec fn spec_default_table() -> SpecTable {
    SpecTable {
        name: "Sabit"@,
        columns: 0,
        column_widths: Seq::empty(),
        border: spec_default_border(),
        rows: Seq::empty(),
        align: None,
        width: None,
        cellpadding: None,
        cellspacing: None,
        border_width: None,
        border_color: None,
        border_spec: None,
    }
}

impl Default for Table {
    fn default() -> (r: Table)
        ensures
            view_table(r) == spec_default_table(),
    {
        let r = Table {
            name: String::from_str("Sabit"),
            columns: 0,
            column_widths: Vec::new(),
            border: BorderStyle::default(),
            rows: Vec::new(),
            align: None,
            width: None,
            cellpadding: None,
            cellspacing: None,
            border_width: None,
            border_color: None,
            border_spec: None,
        };
        assert(view_rows(r.rows@) =~= Seq::empty());
        assert(r.column_widths@ =~= Seq::empty());
        r
    }
}

pub open spec fn spec_default_paragraph() -> SpecParagraph {
    SpecParagraph {
        alignment: Alignment::Left,
        left_indent: Num { nanos: 0 },
        right_indent: Num { nanos: 0 },
        first_line_indent: Num { nanos: 0 },
        line_spacing: Num { nanos: 0 },
        space_before: Num { nanos: 0 },
        space_after: Num { nanos: 0 },
        runs: Seq::empty(),
        list: None,
        tab_stops: Seq::empty(),
        empty_content_style: None,
    }
}

impl Default for Paragraph {
    /// Left-aligned, no indents or spacing, no runs.
    fn default() -> (r: Paragraph)
        ensures
            r@ == spec_default_paragraph(),
    {
        let r = Paragraph {
            alignment: Alignment::Left,
            left_indent: Num { nanos: 0 },
            right_indent: Num { nanos: 0 },
            first_line_indent: Num { nanos: 0 },
            line_spacing: Num { nanos: 0 },
            space_before: Num { nanos: 0 },
            space_after: Num { nanos: 0 },
            runs: Vec::new(),
            list: None,
            tab_stops: Vec::new(),
            empty_content_style: None,
        };
        assert(r@.runs =~= Seq::empty());
        assert(r@.tab_stops =~= Seq::empty());
        r
    }
}

pub open spec fn spec_default_footer_page_number() -> SpecFooterPageNumber {
    SpecFooterPageNumber {
        spec: Seq::empty(),
        font_face: "Times New Roman"@,
        font_size: Num { nanos: 11_000_000_000 },
        font_bold: false,
        font_italic: false,
        color: -16777216i32,
        fore_str: Seq::empty(),
        page_start_num_str: Seq::empty(),
        extra_attributes: Seq::empty(),
    }
}

impl Default for FooterPageNumber {
    fn default() -> (r: FooterPageNumber)
        ensures
            r@ == spec_default_footer_page_number(),
    {
        let r = FooterPageNumber {
            spec: String::new(),
            font_face: String::from_str("Times New Roman"),
            font_size: Num { nanos: 11_000_000_000 },
            font_bold: false,
            font_italic: false,
            color: -16777216,
            fore_str: String::new(),
            page_start_num_str: String::new(),
            extra_attributes: Vec::new(),
        };
        assert(r@.extra_attributes =~= Seq::empty());
        r
    }
}

pub open spec fn spec_attr(name: Seq<char>, value: Seq<char>) -> SpecAttr {
    SpecAttr { name, value }
}

/// The two styles UYAP writes for a fresh document.
pub open spec fn spec_default_styles() -> Seq<SpecStyle> {
    seq![
        SpecStyle {
            name: "default"@,
            attributes: seq![
                spec_attr("description"@, "Geçerli"@),
                spec_attr("family"@, "Dialog"@),
                spec_attr("size"@, "12"@),
                spec_attr("bold"@, "false"@),
                spec_attr("italic"@, "false"@),
                spec_attr("foreground"@, "-13421773"@),
                spec_attr(
                    "FONT_ATTRIBUTE_KEY"@,
                    "javax.swing.plaf.FontUIResource[family=Dialog,name=Dialog,style=plain,size=12]"@,
                ),
            ],
        },
        SpecStyle {
            name: "hvl-default"@,
            attributes: seq![
                spec_attr("family"@, "Times New Roman"@),
                spec_attr("size"@, "12"@),
                spec_attr("description"@, "Gövde"@),
            ],
        },
    ]
}

fn attr(name: &str, value: &str) -> (r: StyleAttribute)
    ensures
        r@ == spec_attr(name@, value@),
{
    StyleAttribute { name: String::from_str(name), value: String::from_str(value) }
}

impl DocumentStyle {
    /// The two styles UYAP emits for a fresh document.
    pub fn defaults() -> (r: Vec<DocumentStyle>)
        ensures
            r@.map_values(|s: DocumentStyle| s@) == spec_default_styles(),
    {
        let mut a: Vec<StyleAttribute> = Vec::new();
        a.push(attr("description", "Geçerli"));
        a.push(attr("family", "Dialog"));
        a.push(attr("size", "12"));
        a.push(attr("bold", "false"));
        a.push(attr("italic", "false"));
        a.push(attr("foreground", "-13421773"));
        a.push(
            attr(
                "FONT_ATTRIBUTE_KEY",
                "javax.swing.plaf.FontUIResource[family=Dialog,name=Dialog,style=plain,size=12]",
            ),
        );
        let mut b: Vec<StyleAttribute> = Vec::new();
        b.push(attr("family", "Times New Roman"));
        b.push(attr("size", "12"));
        b.push(attr("description", "Gövde"));
        let first = DocumentStyle { name: String::from_str("default"), attributes: a };
        let second = DocumentStyle { name: String::from_str("hvl-default"), attributes: b };
        assert(first@.attributes =~= spec_default_styles()[0].attributes);
        assert(second@.attributes =~= spec_default_styles()[1].attributes);
        let mut r: Vec<DocumentStyle> = Vec::new();
        r.push(first);
        r.push(second);
        assert(r@.map_values(|s: DocumentStyle| s@) =~= spec_default_styles());
        r
    }
}

pub open spec fn spec_default_document() -> SpecDocument {
    SpecDocument {
        pages: spec_default_page_format(),
        header: Seq::empty(),
        body: Seq::empty(),
        footer: Seq::empty(),
        footer_page_number: None,
        format_id: "1.8"@,
        resolver: "hvl-default"@,
        styles: spec_default_styles(),
    }
}

impl Default for Document {
    /// An empty document: default page, format "1.8", resolver "hvl-default", and the two
    /// default styles.
    fn default() -> (r: Document)
        ensures
            r@ == spec_default_document(),
    {
        let r = Document {
            pages: PageFormat::default(),
            header: Vec::new(),
            body: Vec::new(),
            footer: Vec::new(),
            footer_page_number: None,
            format_id: String::from_str("1.8"),
            resolver: String::from_str("hvl-default"),
            styles: DocumentStyle::defaults(),
        };
        assert(view_blocks(r.header@) =~= Seq::empty());
        assert(view_blocks(r.body@) =~= Seq::empty());
        assert(view_blocks(r.footer@) =~= Seq::empty());
        r
    }
}

} // verus!
