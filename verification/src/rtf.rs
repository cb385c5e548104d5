//! RTF backend (lean, first page): feeds the off-screen RichEdit control that draws the
//! Explorer thumbnail. Low fidelity is acceptable: nested tables are flattened and line
//! spacing is dropped. The output is a single brace-balanced RTF document.
//!
//! Mapping (the same model semantics as the HTML backend):
//!   * runs -> `{\fN\fsN\cfN\b\i\ul\strike\highlightN text}` (size in half-points)
//!   * paragraphs -> `\pard \ql/\qc/\qr/\qj \sbN \saN \liN \riN \fiN ... \par` (twips)
//!   * tabs -> `\tab`; images -> `{\pict\pngblip|\jpegblip ...hex...}`
//!   * tables -> `\trowd \cellxN ... \cell \row` with per-cell borders (border colour 0 is
//!     opaque black)
//!
//! Units: points -> twips (x20); font size -> half-points (x2).

use vstd::prelude::*;
use crate::color::{argb_to_rgba, border_rgb_opaque, spec_rgba};
use crate::html::{
    align_css, bumped, bump_counter, clamp_width, next_number, part_if, width_cap, Counters,
};
use crate::model::{
    Alignment, BlockElement, Document, ImageRun, InlineElement, ListProperties, ListType,
    Paragraph, SpecBlock, SpecCell, SpecDocument, SpecInline, SpecList, SpecParagraph, SpecRow,
    SpecTable, SpecTextStyle, Table, TableCell, TableRow, TextStyle, lemma_view_blocks,
    lemma_view_cells, lemma_view_rows, view_block, view_blocks, view_cell, view_cells, view_row,
    view_rows, view_table,
};
use crate::num::{
    half_points, round_div, round_div_exec, saturate_i64, saturate_i64_exec, spec_half_points,
    spec_twips, twips, Num,
};
use crate::text::{
    contains_text, lacks_char, lemma_absent_by_missing_char, lemma_contains_middle,
    lemma_lacks_concat, chars_of, decimal, hex2, push_decimal, push_hex2, push_signed, signed_decimal, str_eq,
    strip_white_space, without_white_space,
};

verus! {

// ---------------------------------------------------------------------------
// Brace balance
// ---------------------------------------------------------------------------

/// Where a left-to-right scan of RTF text stands: the brace depth, whether the last
/// character was an escaping backslash, and whether the depth ever went below zero.
pub struct BraceScan {
    pub depth: int,
    pub escaped: bool,
    pub dipped: bool,
}

/// One character of the scan: an unescaped `{` opens a group, an unescaped `}` closes one,
/// and a backslash escapes the next character unless it is itself escaped.
pub open spec fn scan_step(st: BraceScan, c: char) -> BraceScan {
    if c == '{' && !st.escaped {
        BraceScan { depth: st.depth + 1, escaped: false, dipped: st.dipped }
    } else if c == '}' && !st.escaped {
        BraceScan { depth: st.depth - 1, escaped: false, dipped: st.dipped || st.depth - 1 < 0 }
    } else {
        BraceScan { depth: st.depth, escaped: c == '\\' && !st.escaped, dipped: st.dipped }
    }
}

pub open spec fn scan_from(st: BraceScan, s: Seq<char>) -> BraceScan
    decreases s.len(),
{
    if s.len() == 0 {
        st
    } else {
        scan_step(scan_from(st, s.drop_last()), s.last())
    }
}

/// Every unescaped `}` closes an earlier unescaped `{`, and every group is closed.
pub open spec fn braces_balanced(s: Seq<char>) -> bool {
    let end = scan_from(BraceScan { depth: 0, escaped: false, dipped: false }, s);
    end.depth == 0 && !end.dipped
}

/// Text that leaves any unescaped scan position where it found it: it closes every group
/// it opens, never closes one it did not open, and does not end on an escaping backslash.
pub open spec fn neutral(s: Seq<char>) -> bool {
    forall|st: BraceScan| st.depth >= 0 && !st.escaped ==> #[trigger] scan_from(st, s) == st
}

pub open spec fn brace_free(s: Seq<char>) -> bool {
    forall|i: int| 0 <= i < s.len() ==> s[i] != '{' && s[i] != '}'
}

proof fn lemma_scan_concat(st: BraceScan, a: Seq<char>, b: Seq<char>)
    ensures
        scan_from(st, a + b) == scan_from(scan_from(st, a), b),
    decreases b.len(),
{
    if b.len() == 0 {
        assert(a + b =~= a);
    } else {
        assert((a + b).drop_last() =~= a + b.drop_last());
        lemma_scan_concat(st, a, b.drop_last());
    }
}

proof fn lemma_scan_one(st: BraceScan, c: char)
    ensures
        scan_from(st, seq![c]) == scan_step(st, c),
{
    assert(seq![c].drop_last() =~= Seq::<char>::empty());
    assert(scan_from(st, Seq::<char>::empty()) == st);
}

pub broadcast proof fn lemma_neutral_concat(a: Seq<char>, b: Seq<char>)
    requires
        neutral(a),
        neutral(b),
    ensures
        #[trigger] neutral(a + b),
{
    assert forall|st: BraceScan| st.depth >= 0 && !st.escaped implies #[trigger] scan_from(
        st,
        a + b,
    ) == st by {
        lemma_scan_concat(st, a, b);
        assert(scan_from(st, a) == st);
    }
}

proof fn lemma_neutral_empty()
    ensures
        neutral(Seq::<char>::empty()),
{
}

/// A neutral text wrapped in braces is neutral.
proof fn lemma_neutral_group(x: Seq<char>)
    requires
        neutral(x),
    ensures
        neutral(seq!['{'] + x + seq!['}']),
{
    assert forall|st: BraceScan| st.depth >= 0 && !st.escaped implies #[trigger] scan_from(
        st,
        seq!['{'] + x + seq!['}'],
    ) == st by {
        lemma_scan_concat(st, seq!['{'] + x, seq!['}']);
        lemma_scan_concat(st, seq!['{'], x);
        lemma_scan_one(st, '{');
        let up = BraceScan { depth: st.depth + 1, escaped: false, dipped: st.dipped };
        assert(scan_from(up, x) == up);
        lemma_scan_one(up, '}');
    }
}

proof fn lemma_brace_free_scan(st: BraceScan, s: Seq<char>)
    requires
        brace_free(s),
    ensures
        scan_from(st, s).depth == st.depth,
        scan_from(st, s).dipped == st.dipped,
        s.len() == 0 ==> scan_from(st, s) == st,
        s.len() > 0 && s.last() != '\\' ==> !scan_from(st, s).escaped,
    decreases s.len(),
{
    if s.len() > 0 {
        lemma_brace_free_scan(st, s.drop_last());
    }
}

/// Text without braces that does not end on a backslash is neutral.
proof fn lemma_plain_neutral(s: Seq<char>)
    requires
        brace_free(s),
        s.len() == 0 || s.last() != '\\',
    ensures
        neutral(s),
{
    assert forall|st: BraceScan| st.depth >= 0 && !st.escaped implies #[trigger] scan_from(st, s)
        == st by {
        lemma_brace_free_scan(st, s);
    }
}

proof fn lemma_decimal_digits(n: nat)
    ensures
        decimal(n).len() > 0,
        forall|i: int| 0 <= i < decimal(n).len() ==> '0' <= #[trigger] decimal(n)[i] <= '9',
    decreases n,
{
    if n >= 10 {
        lemma_decimal_digits(n / 10);
    }
}

proof fn lemma_decimal_neutral(n: nat)
    ensures
        neutral(decimal(n)),
{
    lemma_decimal_digits(n);
    lemma_plain_neutral(decimal(n));
}

proof fn lemma_signed_neutral(v: int)
    ensures
        neutral(signed_decimal(v)),
{
    if v < 0 {
        lemma_decimal_digits((-v) as nat);
        lemma_plain_neutral(seq!['-'] + decimal((-v) as nat));
    } else {
        lemma_decimal_neutral(v as nat);
    }
}

// ---------------------------------------------------------------------------
// Escaping
// ---------------------------------------------------------------------------

/// `\uN?` for one UTF-16 code unit, `N` read as a signed 16-bit number.
pub open spec fn unit_escape(u: int) -> Seq<char> {
    seq!['\\', 'u'] + signed_decimal(if u >= 0x8000 { u - 0x10000 } else { u }) + seq!['?']
}

/// The `\uN?` escapes of a non-ASCII character, one per UTF-16 code unit (a surrogate
/// pair above U+FFFF).
pub open spec fn utf16_escapes(c: char) -> Seq<char> {
    let v = c as int;
    if v < 0x10000 {
        unit_escape(v)
    } else {
        unit_escape(0xD800 + (v - 0x10000) / 0x400) + unit_escape(0xDC00 + (v - 0x10000) % 0x400)
    }
}

pub open spec fn rtf_escape_char(c: char) -> Seq<char> {
    if c == '\\' {
        seq!['\\', '\\']
    } else if c == '{' {
        seq!['\\', '{']
    } else if c == '}' {
        seq!['\\', '}']
    } else if c == '\n' {
        seq!['\\', 'p', 'a', 'r', '\n']
    } else if c == '\t' {
        seq!['\\', 't', 'a', 'b', ' ']
    } else if (c as int) < 0x80 {
        seq![c]
    } else {
        utf16_escapes(c)
    }
}

/// Text escaped for RTF: backslash and braces escaped, newline as `\par`, tab as `\tab`,
/// non-ASCII as `\uN?` per UTF-16 code unit.
pub open spec fn escape_rtf_spec(s: Seq<char>) -> Seq<char>
    decreases s.len(),
{
    if s.len() == 0 {
        Seq::empty()
    } else {
        escape_rtf_spec(s.drop_last()) + rtf_escape_char(s.last())
    }
}

proof fn lemma_unit_escape_neutral(u: int)
    ensures
        neutral(unit_escape(u)),
{
    let v = if u >= 0x8000 { u - 0x10000 } else { u };
    if v < 0 {
        lemma_decimal_digits((-v) as nat);
    } else {
        lemma_decimal_digits(v as nat);
    }
    lemma_plain_neutral(unit_escape(u));
}

proof fn lemma_escape_char_neutral(c: char)
    ensures
        neutral(rtf_escape_char(c)),
{
    if c == '\\' || c == '{' || c == '}' {
        assert forall|st: BraceScan| st.depth >= 0 && !st.escaped implies #[trigger] scan_from(
            st,
            rtf_escape_char(c),
        ) == st by {
            let e = rtf_escape_char(c);
            assert(e =~= seq!['\\'] + seq![c]);
            lemma_scan_concat(st, seq!['\\'], seq![c]);
            lemma_scan_one(st, '\\');
            lemma_scan_one(BraceScan { depth: st.depth, escaped: true, dipped: st.dipped }, c);
        }
    } else if c == '\n' || c == '\t' {
        lemma_plain_neutral(rtf_escape_char(c));
    } else if (c as int) < 0x80 {
        lemma_plain_neutral(rtf_escape_char(c));
    } else {
        broadcast use lemma_neutral_concat;

        let v = c as int;
        lemma_unit_escape_neutral(v);
        lemma_unit_escape_neutral(0xD800 + (v - 0x10000) / 0x400);
        lemma_unit_escape_neutral(0xDC00 + (v - 0x10000) % 0x400);
    }
}

pub proof fn lemma_escape_neutral(s: Seq<char>)
    ensures
        neutral(escape_rtf_spec(s)),
    decreases s.len(),
{
    broadcast use lemma_neutral_concat;

    if s.len() == 0 {
        lemma_neutral_empty();
    } else {
        lemma_escape_neutral(s.drop_last());
        lemma_escape_char_neutral(s.last());
    }
}

/// Appends the `\uN?` escape of one UTF-16 code unit.
fn push_unit_escape(out: &mut String, u: u32)
    requires
        u < 0x10000,
    ensures
        final(out)@ == old(out)@ + unit_escape(u as int),
{
    out.push('\\');
    out.push('u');
    let v: i128 = if u >= 0x8000 { u as i128 - 0x10000 } else { u as i128 };
    push_signed(out, v);
    out.push('?');
    assert(final(out)@ =~= old(out)@ + unit_escape(u as int));
}

fn push_escaped_char(out: &mut String, c: char)
    ensures
        final(out)@ == old(out)@ + rtf_escape_char(c),
{
    let ghost o = out@;
    if c == '\\' {
        out.push('\\');
        out.push('\\');
    } else if c == '{' {
        out.push('\\');
        out.push('{');
    } else if c == '}' {
        out.push('\\');
        out.push('}');
    } else if c == '\n' {
        out.push('\\');
        out.push('p');
        out.push('a');
        out.push('r');
        out.push('\n');
    } else if c == '\t' {
        out.push('\\');
        out.push('t');
        out.push('a');
        out.push('b');
        out.push(' ');
    } else if (c as u32) < 0x80 {
        out.push(c);
    } else {
        let v = c as u32;
        if v < 0x10000 {
            push_unit_escape(out, v);
        } else {
            let w = v - 0x10000;
            push_unit_escape(out, 0xD800 + w / 0x400);
            push_unit_escape(out, 0xDC00 + w % 0x400);
        }
    }
    assert(out@ =~= o + rtf_escape_char(c));
}

fn push_escaped_rtf(out: &mut String, s: &str)
    ensures
        final(out)@ == old(out)@ + escape_rtf_spec(s@),
{
    let ghost o = out@;
    let v = chars_of(s);
    let mut k: usize = 0;
    while k < v.len()
        invariant
            k <= v.len(),
            v@ == s@,
            out@ == o + escape_rtf_spec(v@.take(k as int)),
        decreases v.len() - k,
    {
        assert(v@.take(k + 1).drop_last() =~= v@.take(k as int));
        push_escaped_char(out, v[k]);
        k = k + 1;
    }
    assert(v@.take(v.len() as int) =~= v@);
}

/// Escape text for RTF: backslash and braces, newline and tab as control words, and
/// non-ASCII as `\uN?` (UTF-16 code units read as signed 16-bit numbers).
pub fn escape_rtf(s: &str) -> (r: String)
    ensures
        r@ == escape_rtf_spec(s@),
{
    let mut out = String::new();
    push_escaped_rtf(&mut out, s);
    out
}

// ---------------------------------------------------------------------------
// Font and colour tables
// ---------------------------------------------------------------------------

/// What the renderer has collected so far: the font table, the colour palette and the
/// running list numbers.
pub struct RtfTables {
    pub fonts: Seq<Seq<char>>,
    pub colors: Seq<(u8, u8, u8)>,
    pub counters: Counters,
}

/// The index of the first occurrence of `x` in `s`, or -1.
pub open spec fn first_index<A>(s: Seq<A>, x: A) -> int
    decreases s.len(),
{
    if s.len() == 0 {
        -1
    } else {
        let r = first_index(s.drop_last(), x);
        if r >= 0 {
            r
        } else if s.last() == x {
            s.len() - 1
        } else {
            -1
        }
    }
}

proof fn lemma_first_index<A>(s: Seq<A>, x: A)
    ensures
        -1 <= first_index(s, x) < s.len(),
        first_index(s, x) == -1 <==> forall|j: int| 0 <= j < s.len() ==> s[j] != x,
        first_index(s, x) >= 0 ==> s[first_index(s, x)] == x && forall|j: int|
            0 <= j < first_index(s, x) ==> s[j] != x,
    decreases s.len(),
{
    if s.len() > 0 {
        lemma_first_index(s.drop_last(), x);
        assert forall|j: int| 0 <= j < s.len() - 1 implies s[j] == s.drop_last()[j] by {}
    }
}

/// The family a run is set in: its own, or Times New Roman when it names none.
pub open spec fn font_name(family: Seq<char>) -> Seq<char> {
    if family.len() == 0 {
        "Times New Roman"@
    } else {
        family
    }
}

/// The `\fN` index of a family, registering it at the end of the font table when new.
pub open spec fn font_slot(fonts: Seq<Seq<char>>, family: Seq<char>) -> (int, Seq<Seq<char>>) {
    let i = first_index(fonts, font_name(family));
    if i >= 0 {
        (i, fonts)
    } else {
        (fonts.len() as int, fonts.push(font_name(family)))
    }
}

/// The 1-based `\cfN` index of a colour, registering it at the end of the palette when
/// new (palette slot 0 is the automatic colour).
pub open spec fn color_slot(colors: Seq<(u8, u8, u8)>, rgb: (u8, u8, u8)) -> (int, Seq<(u8, u8, u8)>) {
    let i = first_index(colors, rgb);
    if i >= 0 {
        (i + 1, colors)
    } else {
        (colors.len() + 1int, colors.push(rgb))
    }
}

/// The red, green and blue channels of a signed ARGB value.
pub open spec fn rgb_of(v: i32) -> (u8, u8, u8) {
    (spec_rgba(v).0, spec_rgba(v).1, spec_rgba(v).2)
}

/// Renders each item in turn, threading the tables through.
pub open spec fn emit_each<A>(
    xs: Seq<A>,
    t: RtfTables,
    f: spec_fn(A, RtfTables) -> (Seq<char>, RtfTables),
) -> (Seq<char>, RtfTables)
    decreases xs.len(),
{
    if xs.len() == 0 {
        (Seq::empty(), t)
    } else {
        let (a, t1) = emit_each(xs.drop_last(), t, f);
        let (b, t2) = f(xs.last(), t1);
        (a + b, t2)
    }
}

proof fn lemma_emit_each_push<A>(
    x: Seq<A>,
    y: A,
    t: RtfTables,
    f: spec_fn(A, RtfTables) -> (Seq<char>, RtfTables),
)
    ensures
        emit_each(x.push(y), t, f) == (
            emit_each(x, t, f).0 + f(y, emit_each(x, t, f).1).0,
            f(y, emit_each(x, t, f).1).1,
        ),
{
    assert(x.push(y).drop_last() =~= x);
}

proof fn lemma_emit_each_neutral<A>(
    xs: Seq<A>,
    t: RtfTables,
    f: spec_fn(A, RtfTables) -> (Seq<char>, RtfTables),
)
    requires
        forall|x: A, u: RtfTables| #[trigger] neutral(f(x, u).0),
    ensures
        neutral(emit_each(xs, t, f).0),
    decreases xs.len(),
{
    broadcast use lemma_neutral_concat;

    if xs.len() > 0 {
        lemma_emit_each_neutral(xs.drop_last(), t, f);
        let t1 = emit_each(xs.drop_last(), t, f).1;
        assert(neutral(f(xs.last(), t1).0));
    }
}

// ---------------------------------------------------------------------------
// Runs
// ---------------------------------------------------------------------------

pub open spec fn run_flags(s: SpecTextStyle) -> Seq<char> {
    part_if(s.bold, "\\b"@) + part_if(s.italic, "\\i"@) + part_if(s.underline, "\\ul"@) + part_if(
        s.strikethrough,
        "\\strike"@,
    )
}

proof fn lemma_part_lacks(cond: bool, lit: Seq<char>, c: char)
    requires
        lacks_char(lit, c),
    ensures
        lacks_char(part_if(cond, lit), c),
{
}

/// The four flag words, and which of the letters `b`, `u`, `s` each lacks.
proof fn lemma_flag_words()
    ensures
        lacks_char("\\i"@, 'b') && lacks_char("\\ul"@, 'b') && lacks_char("\\strike"@, 'b'),
        lacks_char("\\b"@, 'u') && lacks_char("\\i"@, 'u') && lacks_char("\\strike"@, 'u'),
        lacks_char("\\b"@, 's') && lacks_char("\\i"@, 's') && lacks_char("\\ul"@, 's'),
        "\\b"@.len() == 2 && "\\b"@[1] == 'b',
        "\\ul"@.len() == 3 && "\\ul"@[1] == 'u',
        "\\strike"@.len() == 7 && "\\strike"@[1] == 's',
{
    reveal_strlit("\\b");
    reveal_strlit("\\i");
    reveal_strlit("\\ul");
    reveal_strlit("\\strike");
}

/// A run's RTF flags follow its style: `\b`, `\i`, `\ul` and `\strike` are written
/// for a bold, italic, underlined and struck-through run, and `\b`, `\ul` and
/// `\strike` are absent when the run lacks that flag.
pub proof fn lemma_run_flags_follow_style(s: SpecTextStyle)
    ensures
        s.bold ==> contains_text(run_flags(s), "\\b"@),
        s.italic ==> contains_text(run_flags(s), "\\i"@),
        s.underline ==> contains_text(run_flags(s), "\\ul"@),
        s.strikethrough ==> contains_text(run_flags(s), "\\strike"@),
        !s.bold ==> !contains_text(run_flags(s), "\\b"@),
        !s.underline ==> !contains_text(run_flags(s), "\\ul"@),
        !s.strikethrough ==> !contains_text(run_flags(s), "\\strike"@),
{
    let p1 = part_if(s.bold, "\\b"@);
    let p2 = part_if(s.italic, "\\i"@);
    let p3 = part_if(s.underline, "\\ul"@);
    let p4 = part_if(s.strikethrough, "\\strike"@);
    let f = run_flags(s);
    assert(f == p1 + p2 + p3 + p4);
    assert(contains_text(f, p1)) by {
        lemma_contains_middle(Seq::empty(), p1, p2 + p3 + p4);
        assert(Seq::<char>::empty() + p1 + (p2 + p3 + p4) =~= f);
    }
    assert(contains_text(f, p2)) by {
        lemma_contains_middle(p1, p2, p3 + p4);
        assert(p1 + p2 + (p3 + p4) =~= f);
    }
    assert(contains_text(f, p3)) by {
        lemma_contains_middle(p1 + p2, p3, p4);
    }
    assert(contains_text(f, p4)) by {
        lemma_contains_middle(p1 + p2 + p3, p4, Seq::empty());
        assert(p1 + p2 + p3 + p4 + Seq::<char>::empty() =~= f);
    }
    lemma_flag_words();
    if !s.bold {
        assert(lacks_char(f, 'b')) by {
            lemma_part_lacks(s.italic, "\\i"@, 'b');
            lemma_part_lacks(s.underline, "\\ul"@, 'b');
            lemma_part_lacks(s.strikethrough, "\\strike"@, 'b');
            lemma_lacks_concat(p1, p2, 'b');
            lemma_lacks_concat(p1 + p2, p3, 'b');
            lemma_lacks_concat(p1 + p2 + p3, p4, 'b');
        }
        lemma_absent_by_missing_char(f, "\\b"@, 1);
    }
    if !s.underline {
        assert(lacks_char(f, 'u')) by {
            lemma_part_lacks(s.bold, "\\b"@, 'u');
            lemma_part_lacks(s.italic, "\\i"@, 'u');
            lemma_part_lacks(s.strikethrough, "\\strike"@, 'u');
            lemma_lacks_concat(p1, p2, 'u');
            lemma_lacks_concat(p1 + p2, p3, 'u');
            lemma_lacks_concat(p1 + p2 + p3, p4, 'u');
        }
        lemma_absent_by_missing_char(f, "\\ul"@, 1);
    }
    if !s.strikethrough {
        assert(lacks_char(f, 's')) by {
            lemma_part_lacks(s.bold, "\\b"@, 's');
            lemma_part_lacks(s.italic, "\\i"@, 's');
            lemma_part_lacks(s.underline, "\\ul"@, 's');
            lemma_lacks_concat(p1, p2, 's');
            lemma_lacks_concat(p1 + p2, p3, 's');
            lemma_lacks_concat(p1 + p2 + p3, p4, 's');
        }
        lemma_absent_by_missing_char(f, "\\strike"@, 1);
    }
}

/// A control word with a signed numeric argument, such as `\sb240`.
#[verifier::opaque]
pub open spec fn control(word: Seq<char>, v: int) -> Seq<char> {
    word + signed_decimal(v)
}

/// The control words that open a run's group: font, size in half-points, colour and
/// the flags.
pub open spec fn run_head(f: int, half_points: int, cf: int, style: SpecTextStyle) -> Seq<char> {
    control("\\f"@, f) + control("\\fs"@, half_points) + control("\\cf"@, cf) + run_flags(style)
}

/// A text run as a group `{\fN\fsN\cfN<flags><\highlightN> text}`; an empty text emits
/// nothing and registers nothing. The font, then the text colour, then the highlight
/// colour are registered, in that order.
pub open spec fn rtf_text_run(text: Seq<char>, style: SpecTextStyle, t: RtfTables) -> (Seq<char>, RtfTables) {
    if text.len() == 0 {
        (Seq::empty(), t)
    } else {
        let (f, fonts) = font_slot(t.fonts, style.font_family);
        let (cf, colors1) = color_slot(t.colors, rgb_of(style.color));
        let (hl, colors2) = if style.background_color != -1 {
            let (h, c2) = color_slot(colors1, rgb_of(style.background_color));
            ("\\highlight"@ + decimal(h as nat), c2)
        } else {
            (Seq::empty(), colors1)
        };
        (
            seq!['{'] + (run_head(f, spec_half_points(style.font_size.nanos as int), cf, style) + hl
                + seq![' '] + escape_rtf_spec(text)) + seq!['}'],
            RtfTables { fonts, colors: colors2, counters: t.counters },
        )
    }
}

/// Lower-case hexadecimal of every byte, in order.
pub open spec fn hex_bytes(b: Seq<u8>) -> Seq<char>
    decreases b.len(),
{
    if b.len() == 0 {
        Seq::empty()
    } else {
        hex_bytes(b.drop_last()) + hex2(b.last())
    }
}

/// Whether decoded image bytes start with the JPEG signature `FF D8 FF`.
pub open spec fn is_jpeg(b: Seq<u8>) -> bool {
    b.len() >= 3 && b[0] == 0xFF && b[1] == 0xD8 && b[2] == 0xFF
}

/// A picture group `{\pict\jpegblip|\pngblip\picwgoalW\pichgoalH hex}` for decoded image
/// bytes (PNG is the default), sized in twips; nothing for no bytes.
pub open spec fn spec_picture(bytes: Seq<u8>, width: Num, height: Num) -> Seq<char> {
    if bytes.len() == 0 {
        Seq::empty()
    } else {
        seq!['{'] + ("\\pict"@ + (if is_jpeg(bytes) {
            "\\jpegblip"@
        } else {
            "\\pngblip"@
        }) + "\\picwgoal"@ + signed_decimal(spec_twips(width.nanos as int)) + "\\pichgoal"@
            + signed_decimal(spec_twips(height.nanos as int)) + seq![' '] + hex_bytes(bytes))
            + seq!['}']
    }
}

/// The bytes that `base64`'s standard engine (standard alphabet, padded, no trailing
/// bits) decodes from `input`, or `None` where it refuses the input.
pub uninterp spec fn base64_standard_decode(input: Seq<u8>) -> Option<Seq<u8>>;

/// `Engine::decode` of `base64::engine::general_purpose::STANDARD`. Claimed: the result
/// is the crate's decoding of exactly these bytes, and `None` exactly where the crate
/// returns an error. What that decoding is, is left to the crate.
#[verifier::external_body]
fn decode_base64(input: &[u8]) -> (r: Option<Vec<u8>>)
    ensures
        match r {
            Some(v) => base64_standard_decode(input@) == Some(v@),
            None => base64_standard_decode(input@) is None,
        },
{
    match base64::Engine::decode(&base64::engine::general_purpose::STANDARD, input) {
        Ok(v) => Some(v),
        Err(_) => None,
    }
}

/// An embedded image: its data with every White_Space character removed is decoded as
/// standard base64; an image that does not decode, or decodes to nothing, is skipped.
pub open spec fn rtf_image(data: Seq<char>, width: Num, height: Num) -> Seq<char> {
    match base64_standard_decode(vstd::utf8::encode_utf8(without_white_space(data))) {
        Some(bytes) => spec_picture(bytes, width, height),
        None => Seq::empty(),
    }
}

pub open spec fn rtf_run(r: SpecInline, t: RtfTables) -> (Seq<char>, RtfTables) {
    match r {
        SpecInline::Text { text, style } => rtf_text_run(text, style, t),
        SpecInline::Tab { .. } => ("\\tab "@, t),
        SpecInline::Image { data, width, height } => (rtf_image(data, width, height), t),
    }
}

pub open spec fn run_step() -> spec_fn(SpecInline, RtfTables) -> (Seq<char>, RtfTables) {
    |r: SpecInline, t: RtfTables| rtf_run(r, t)
}

pub open spec fn rtf_runs(rs: Seq<SpecInline>, t: RtfTables) -> (Seq<char>, RtfTables) {
    emit_each(rs, t, run_step())
}

/// The picture group for decoded image bytes.
pub fn picture_group(bytes: &[u8], width: Num, height: Num) -> (r: String)
    ensures
        r@ == spec_picture(bytes@, width, height),
{
    let mut out = String::new();
    if bytes.len() == 0 {
        return out;
    }
    out.push('{');
    out.append("\\pict");
    if bytes.len() >= 3 && bytes[0] == 0xFF && bytes[1] == 0xD8 && bytes[2] == 0xFF {
        out.append("\\jpegblip");
    } else {
        out.append("\\pngblip");
    }
    out.append("\\picwgoal");
    push_signed(&mut out, twips(width.nanos as i128));
    out.append("\\pichgoal");
    push_signed(&mut out, twips(height.nanos as i128));
    out.push(' ');
    let ghost head = out@;
    let mut k: usize = 0;
    while k < bytes.len()
        invariant
            k <= bytes.len(),
            out@ == head + hex_bytes(bytes@.take(k as int)),
        decreases bytes.len() - k,
    {
        assert(bytes@.take(k + 1).drop_last() =~= bytes@.take(k as int));
        push_hex2(&mut out, bytes[k]);
        k = k + 1;
    }
    assert(bytes@.take(bytes.len() as int) =~= bytes@);
    out.push('}');
    assert(out@ =~= spec_picture(bytes@, width, height));
    out
}

// ---------------------------------------------------------------------------
// Paragraphs
// ---------------------------------------------------------------------------

pub open spec fn rtf_align(a: Alignment) -> Seq<char> {
    match a {
        Alignment::Left => "\\ql"@,
        Alignment::Center => "\\qc"@,
        Alignment::Right => "\\qr"@,
        Alignment::Justify => "\\qj"@,
    }
}

/// Both renderers place a paragraph alike: the RTF alignment word is `\q` followed by
/// the initial of the CSS `text-align` keyword the HTML renderer writes for the same
/// alignment (`\ql` left, `\qc` center, `\qr` right, `\qj` justify), and distinct
/// alignments get distinct words.
pub proof fn lemma_rtf_alignment_agrees_with_html(a: Alignment, b: Alignment)
    ensures
        rtf_align(a) == "\\q"@ + seq![align_css(a)["text-align:"@.len() as int]],
        a != b ==> rtf_align(a) != rtf_align(b),
{
    reveal_strlit("\\q");
    reveal_strlit("\\ql");
    reveal_strlit("\\qc");
    reveal_strlit("\\qr");
    reveal_strlit("\\qj");
    reveal_strlit("text-align:");
    reveal_strlit("text-align:left;");
    reveal_strlit("text-align:center;");
    reveal_strlit("text-align:right;");
    reveal_strlit("text-align:justify;");
    assert(rtf_align(a) =~= "\\q"@ + seq![align_css(a)["text-align:"@.len() as int]]);
    if a != b {
        assert(rtf_align(a)[2] != rtf_align(b)[2]);
    }
}

/// Spacing before and after (when positive) and the three indents (when non-zero), in
/// twips.
pub open spec fn rtf_spacing(p: SpecParagraph) -> Seq<char> {
    rtf_space_around(p) + rtf_indents(p)
}

pub open spec fn rtf_space_around(p: SpecParagraph) -> Seq<char> {
    part_if(p.space_before.nanos > 0, control("\\sb"@, spec_twips(p.space_before.nanos as int)))
        + part_if(p.space_after.nanos > 0, control("\\sa"@, spec_twips(p.space_after.nanos as int)))
}

pub open spec fn rtf_indents(p: SpecParagraph) -> Seq<char> {
    part_if(p.left_indent.nanos != 0, control("\\li"@, spec_twips(p.left_indent.nanos as int)))
        + part_if(
        p.right_indent.nanos != 0,
        control("\\ri"@, spec_twips(p.right_indent.nanos as int)),
    ) + part_if(
        p.first_line_indent.nanos != 0,
        control("\\fi"@, spec_twips(p.first_line_indent.nanos as int)),
    )
}

/// A list item's marker and the counters after it: a bullet, or the list's next number
/// followed by a dot.
pub open spec fn rtf_marker(l: SpecList, c: Counters) -> (Seq<char>, Counters) {
    match l.list_type {
        ListType::Bulleted => (seq!['\u{2022}'], c),
        ListType::Numbered => (
            decimal(next_number(c, l.list_id) as nat) + seq!['.'],
            bumped(c, l.list_id),
        ),
    }
}

/// A paragraph: `\pard`, the prefix, alignment and spacing, the list marker (as text,
/// then a tab) or a space, the runs, and `\par`.
pub open spec fn rtf_paragraph(p: SpecParagraph, prefix: Seq<char>, t: RtfTables) -> (Seq<char>, RtfTables) {
    let (lead, t1) = match p.list {
        Some(l) => {
            let (m, c2) = rtf_marker(l, t.counters);
            (
                seq![' '] + escape_rtf_spec(m) + "\\tab "@,
                RtfTables { fonts: t.fonts, colors: t.colors, counters: c2 },
            )
        },
        None => (seq![' '], t),
    };
    let (runs, t2) = rtf_runs(p.runs, t1);
    ("\\pard"@ + prefix + rtf_align(p.alignment) + rtf_spacing(p) + lead + runs + "\\par\n"@, t2)
}

// ---------------------------------------------------------------------------
// Tables, blocks and the document
// ---------------------------------------------------------------------------

/// A cell's share of its row: its width, or 100 points.
pub open spec fn rtf_cell_weight(c: SpecCell) -> int {
    match c.width {
        Some(w) => w.nanos as int,
        None => 100_000_000_000,
    }
}

/// The running sum of the cells' weights, held within the width cap.
pub open spec fn rtf_weight_sum(cs: Seq<SpecCell>) -> int
    decreases cs.len(),
{
    if cs.len() == 0 {
        0
    } else {
        clamp_width(rtf_weight_sum(cs.drop_last()) + rtf_cell_weight(cs.last()))
    }
}

/// A row's total weight, at least one point.
pub open spec fn rtf_row_total(cs: Seq<SpecCell>) -> int {
    let t = rtf_weight_sum(cs);
    if t > 1_000_000_000 { t } else { 1_000_000_000 }
}

/// The right boundary, in twips of a 9000-twip row, of the last cell of `prefix`:
/// rounded, and held within `i64` as a float-to-integer cast holds it.
pub open spec fn cell_right(prefix: Seq<SpecCell>, total: int) -> int {
    saturate_i64(round_div(rtf_weight_sum(prefix) * 9000, total))
}

/// A border's width in twips, at least 1.
pub open spec fn border_twips(w: Num) -> int {
    let tw = spec_twips(w.nanos as int);
    if tw < 1 { 1 } else { tw }
}

/// One border edge, present when its bit is set in `borderSpec`.
pub open spec fn rtf_edge(bits: i32, bit: i32, word: Seq<char>, w: int, cf: int) -> Seq<char> {
    part_if(bits & bit != 0, word + "\\brdrs"@ + control("\\brdrw"@, w) + control("\\brdrcf"@, cf))
}

/// A cell's border control words (top=1, right=2, bottom=4, left=8). Unless the style is
/// `borderStyle-none`, the border colour is registered, opaque, even when no edge is
/// drawn.
pub open spec fn rtf_border_defs(c: SpecCell, t: RtfTables) -> (Seq<char>, RtfTables) {
    if c.border.style == "borderStyle-none"@ {
        (Seq::empty(), t)
    } else {
        let (cf, colors) = color_slot(t.colors, rgb_of(c.border_color));
        let w = border_twips(c.border_width);
        (
            rtf_edge(c.border_spec, 1, "\\clbrdrt"@, w, cf) + rtf_edge(c.border_spec, 2, "\\clbrdrr"@, w, cf)
                + rtf_edge(c.border_spec, 4, "\\clbrdrb"@, w, cf) + rtf_edge(
                c.border_spec,
                8,
                "\\clbrdrl"@,
                w,
                cf,
            ),
            RtfTables { fonts: t.fonts, colors, counters: t.counters },
        )
    }
}

/// The row definition: each cell's borders and right boundary.
pub open spec fn rtf_cell_defs(cs: Seq<SpecCell>, total: int, t: RtfTables) -> (Seq<char>, RtfTables)
    decreases cs.len(),
{
    if cs.len() == 0 {
        (Seq::empty(), t)
    } else {
        let (a, t1) = rtf_cell_defs(cs.drop_last(), total, t);
        let (d, t2) = rtf_border_defs(cs.last(), t1);
        (a + d + control("\\cellx"@, cell_right(cs, total)), t2)
    }
}

/// A paragraph inside a cell: no `\par`, the cell terminator ends it.
pub open spec fn rtf_cell_paragraph(p: SpecParagraph, t: RtfTables) -> (Seq<char>, RtfTables) {
    let (runs, t1) = rtf_runs(p.runs, t);
    ("\\pard\\intbl"@ + rtf_align(p.alignment) + seq![' '] + runs, t1)
}

/// A block of a table nested in a cell: only its paragraphs' runs are kept.
pub open spec fn rtf_flat_block(b: SpecBlock, t: RtfTables) -> (Seq<char>, RtfTables) {
    match b {
        SpecBlock::Paragraph(p) => {
            let (runs, t1) = rtf_runs(p.runs, t);
            ("\\pard\\intbl "@ + runs, t1)
        },
        _ => (Seq::empty(), t),
    }
}

pub open spec fn flat_block_step() -> spec_fn(SpecBlock, RtfTables) -> (Seq<char>, RtfTables) {
    |b: SpecBlock, t: RtfTables| rtf_flat_block(b, t)
}

pub open spec fn flat_cell_step() -> spec_fn(SpecCell, RtfTables) -> (Seq<char>, RtfTables) {
    |c: SpecCell, t: RtfTables| emit_each(c.content, t, flat_block_step())
}

pub open spec fn flat_row_step() -> spec_fn(SpecRow, RtfTables) -> (Seq<char>, RtfTables) {
    |r: SpecRow, t: RtfTables| emit_each(r.cells, t, flat_cell_step())
}

/// A table nested in a cell, flattened: the runs of the paragraphs of its cells, in
/// order, each as an in-table paragraph.
pub open spec fn rtf_flat_table(tb: SpecTable, t: RtfTables) -> (Seq<char>, RtfTables) {
    emit_each(tb.rows, t, flat_row_step())
}

pub open spec fn rtf_cell_block(b: SpecBlock, t: RtfTables) -> (Seq<char>, RtfTables) {
    match b {
        SpecBlock::Paragraph(p) => rtf_cell_paragraph(p, t),
        SpecBlock::Table(tb) => rtf_flat_table(tb, t),
        SpecBlock::PageBreak => (Seq::empty(), t),
    }
}

pub open spec fn cell_block_step() -> spec_fn(SpecBlock, RtfTables) -> (Seq<char>, RtfTables) {
    |b: SpecBlock, t: RtfTables| rtf_cell_block(b, t)
}

/// A cell's content and its `\cell` terminator (an empty cell is one empty paragraph).
pub open spec fn rtf_cell_body(c: SpecCell, t: RtfTables) -> (Seq<char>, RtfTables) {
    if c.content.len() == 0 {
        ("\\pard\\intbl \\cell"@, t)
    } else {
        let (x, t1) = emit_each(c.content, t, cell_block_step());
        (x + "\\cell"@, t1)
    }
}

pub open spec fn cell_body_step() -> spec_fn(SpecCell, RtfTables) -> (Seq<char>, RtfTables) {
    |c: SpecCell, t: RtfTables| rtf_cell_body(c, t)
}

/// A row: its definition, then its cells' contents, then `\row`.
pub open spec fn rtf_row(r: SpecRow, t: RtfTables) -> (Seq<char>, RtfTables) {
    let (defs, t1) = rtf_cell_defs(r.cells, rtf_row_total(r.cells), t);
    let (bodies, t2) = emit_each(r.cells, t1, cell_body_step());
    ("\\trowd\\trgaph108"@ + defs + bodies + "\\row\n"@, t2)
}

pub open spec fn row_step() -> spec_fn(SpecRow, RtfTables) -> (Seq<char>, RtfTables) {
    |r: SpecRow, t: RtfTables| rtf_row(r, t)
}

pub open spec fn rtf_table(tb: SpecTable, t: RtfTables) -> (Seq<char>, RtfTables) {
    let (rows, t1) = emit_each(tb.rows, t, row_step());
    (rows + "\\pard\n"@, t1)
}

pub open spec fn page_break_rtf() -> Seq<char> {
    "\\pard\\qc ──────── Sayfa Sonu ────────\\par\n"@
}

pub open spec fn rtf_block(b: SpecBlock, t: RtfTables) -> (Seq<char>, RtfTables) {
    match b {
        SpecBlock::Paragraph(p) => rtf_paragraph(p, Seq::empty(), t),
        SpecBlock::Table(tb) => rtf_table(tb, t),
        SpecBlock::PageBreak => (page_break_rtf(), t),
    }
}

pub open spec fn block_step() -> spec_fn(SpecBlock, RtfTables) -> (Seq<char>, RtfTables) {
    |b: SpecBlock, t: RtfTables| rtf_block(b, t)
}

pub open spec fn rtf_blocks(bs: Seq<SpecBlock>, t: RtfTables) -> (Seq<char>, RtfTables) {
    emit_each(bs, t, block_step())
}

/// A font table entry `{\fN\fnil family;}`.
pub open spec fn font_entry(i: int, fam: Seq<char>) -> Seq<char> {
    seq!['{'] + (control("\\f"@, i) + "\\fnil "@ + escape_rtf_spec(fam) + seq![';']) + seq!['}']
}

pub open spec fn font_entries(fonts: Seq<Seq<char>>) -> Seq<char>
    decreases fonts.len(),
{
    if fonts.len() == 0 {
        Seq::empty()
    } else {
        font_entries(fonts.drop_last()) + font_entry(fonts.len() - 1, fonts.last())
    }
}

/// A colour table entry `\redR\greenG\blueB;`.
pub open spec fn color_entry(c: (u8, u8, u8)) -> Seq<char> {
    control("\\red"@, c.0 as int) + control("\\green"@, c.1 as int) + control("\\blue"@, c.2 as int)
        + seq![';']
}

pub open spec fn color_entries(cs: Seq<(u8, u8, u8)>) -> Seq<char>
    decreases cs.len(),
{
    if cs.len() == 0 {
        Seq::empty()
    } else {
        color_entries(cs.drop_last()) + color_entry(cs.last())
    }
}

/// The text between the outermost braces of a document's RTF.
pub open spec fn rtf_document_inner(t: RtfTables, body: Seq<char>) -> Seq<char> {
    "\\rtf1\\ansi\\ansicpg1254\\deff0"@ + (seq!['{'] + ("\\fonttbl"@ + font_entries(t.fonts))
        + seq!['}']) + (seq!['{'] + ("\\colortbl;"@ + color_entries(t.colors)) + seq!['}'])
        + "\\f0\\fs24\n"@ + body
}

/// The whole document: header, font table, colour table (slot 0 automatic), default
/// font and size, then the body.
pub open spec fn rtf_document(t: RtfTables, body: Seq<char>) -> Seq<char> {
    seq!['{'] + rtf_document_inner(t, body) + seq!['}']
}

/// The tables a renderer starts with: Times New Roman as font 0, no colours, no list
/// numbers.
pub open spec fn initial_tables() -> RtfTables {
    RtfTables { fonts: seq!["Times New Roman"@], colors: Seq::empty(), counters: Seq::empty() }
}

/// The RTF of a document: header, body and footer blocks in order (list numbering and
/// the tables carry across them).
pub open spec fn spec_to_rtf(d: SpecDocument) -> Seq<char> {
    rtf_document(rtf_body(d).1, rtf_body(d).0)
}

/// The body of a document's RTF (header, body and footer blocks in order) and the tables
/// collected while writing it.
pub open spec fn rtf_body(d: SpecDocument) -> (Seq<char>, RtfTables) {
    let (h, t1) = rtf_blocks(d.header, initial_tables());
    let (b, t2) = rtf_blocks(d.body, t1);
    let (f, t3) = rtf_blocks(d.footer, t2);
    (h + b + f, t3)
}

// ---------------------------------------------------------------------------
// Builder
// ---------------------------------------------------------------------------

struct RtfBuilder {
    /// Body content, emitted first; the font and colour tables are put before it at the
    /// end.
    body: String,
    fonts: Vec<String>,
    /// Colour palette (1-based in `\cfN`; colour table slot 0 is the automatic entry).
    colors: Vec<(u8, u8, u8)>,
    list_counters: Vec<(Option<i32>, u64)>,
}

impl RtfBuilder {
    spec fn font_names(&self) -> Seq<Seq<char>> {
        self.fonts@.map_values(|f: String| f@)
    }

    spec fn tables(&self) -> RtfTables {
        RtfTables { fonts: self.font_names(), colors: self.colors@, counters: self.list_counters@ }
    }

    fn new() -> (r: RtfBuilder)
        ensures
            r.body@ == Seq::<char>::empty(),
            r.tables() == (RtfTables {
                fonts: seq!["Times New Roman"@],
                colors: Seq::empty(),
                counters: Seq::empty(),
            }),
    {
        let mut fonts: Vec<String> = Vec::new();
        fonts.push(String::from_str("Times New Roman"));
        let r = RtfBuilder {
            body: String::new(),
            fonts,
            colors: Vec::new(),
            list_counters: Vec::new(),
        };
        assert(r.font_names() =~= seq!["Times New Roman"@]);
        r
    }

    fn font_idx(&mut self, family: &str) -> (r: usize)
        ensures
            (r as int, final(self).font_names()) == font_slot(old(self).font_names(), family@),
            final(self).body == old(self).body,
            final(self).colors == old(self).colors,
            final(self).list_counters == old(self).list_counters,
    {
        let fam: &str = if family.is_empty() { "Times New Roman" } else { family };
        let ghost names = self.font_names();
        proof {
            lemma_first_index(names, font_name(family@));
        }
        let mut i: usize = 0;
        while i < self.fonts.len()
            invariant
                i <= self.fonts.len(),
                names == self.font_names(),
                names == old(self).font_names(),
                fam@ == font_name(family@),
                *self == *old(self),
                forall|j: int| 0 <= j < i ==> names[j] != fam@,
                -1 <= first_index(names, fam@) < names.len(),
                first_index(names, fam@) == -1 <==> forall|j: int|
                    0 <= j < names.len() ==> names[j] != fam@,
                first_index(names, fam@) >= 0 ==> names[first_index(names, fam@)] == fam@
                    && forall|j: int| 0 <= j < first_index(names, fam@) ==> names[j] != fam@,
            decreases self.fonts.len() - i,
        {
            if str_eq(self.fonts[i].as_str(), fam) {
                assert(names[i as int] == fam@);
                return i;
            }
            i = i + 1;
        }
        self.fonts.push(fam.to_string());
        assert(self.font_names() =~= names.push(fam@));
        self.fonts.len() - 1
    }

    fn color_rgb(&mut self, r: u8, g: u8, b: u8) -> (idx: usize)
        ensures
            (idx as int, final(self).colors@) == color_slot(old(self).colors@, (r, g, b)),
            final(self).body == old(self).body,
            final(self).fonts == old(self).fonts,
            final(self).list_counters == old(self).list_counters,
    {
        let ghost cs = self.colors@;
        proof {
            lemma_first_index(cs, (r, g, b));
        }
        let mut i: usize = 0;
        while i < self.colors.len()
            invariant
                i <= self.colors.len(),
                cs == self.colors@,
                *self == *old(self),
                forall|j: int| 0 <= j < i ==> cs[j] != (r, g, b),
                -1 <= first_index(cs, (r, g, b)) < cs.len(),
                first_index(cs, (r, g, b)) == -1 <==> forall|j: int|
                    0 <= j < cs.len() ==> cs[j] != (r, g, b),
                first_index(cs, (r, g, b)) >= 0 ==> cs[first_index(cs, (r, g, b))] == (r, g, b)
                    && forall|j: int| 0 <= j < first_index(cs, (r, g, b)) ==> cs[j] != (r, g, b),
            decreases self.colors.len() - i,
        {
            let c = self.colors[i];
            if c.0 == r && c.1 == g && c.2 == b {
                assert(cs[i as int] == (r, g, b));
                return i + 1;
            }
            i = i + 1;
        }
        self.colors.push((r, g, b));
        self.colors.len()
    }

    /// Registers an ARGB colour, returning its 1-based `\cfN` index.
    fn color_idx(&mut self, argb: i32) -> (idx: usize)
        ensures
            (idx as int, final(self).colors@) == color_slot(old(self).colors@, rgb_of(argb)),
            final(self).body == old(self).body,
            final(self).fonts == old(self).fonts,
            final(self).list_counters == old(self).list_counters,
    {
        let (r, g, b, _) = argb_to_rgba(argb);
        self.color_rgb(r, g, b)
    }

    #[verifier::rlimit(30)]
    fn text_run(&mut self, text: &str, style: &TextStyle)
        ensures
            final(self).body@ == old(self).body@ + rtf_text_run(text@, style@, old(self).tables()).0,
            final(self).tables() == rtf_text_run(text@, style@, old(self).tables()).1,
    {
        if text.is_empty() {
            return;
        }
        let ghost o = self.body@;
        let ghost t0 = self.tables();
        let f = self.font_idx(style.font_family.as_str());
        let cf = self.color_idx(style.color);
        let ghost colors1 = self.colors@;
        self.body.push('{');
        push_run_head(&mut self.body, f, half_points(style.font_size), cf, style);
        let ghost o1 = self.body@;
        if style.background_color != -1 {
            let hl = self.color_idx(style.background_color);
            self.body.append("\\highlight");
            push_decimal(&mut self.body, hl as u128);
        }
        let ghost o2 = self.body@;
        self.body.push(' ');
        push_escaped_rtf(&mut self.body, text);
        self.body.push('}');
        let ghost hl_part = if style@.background_color != -1 {
            "\\highlight"@ + decimal(color_slot(colors1, rgb_of(style@.background_color)).0 as nat)
        } else {
            Seq::empty()
        };
        assert(o2 =~= o1 + hl_part);
        assert(self.body@ =~= o + rtf_text_run(text@, style@, t0).0);
        assert(self.tables() =~= rtf_text_run(text@, style@, t0).1);
    }

    fn image(&mut self, img: &ImageRun)
        ensures
            final(self).body@ == old(self).body@ + rtf_image(img.data@, img.width, img.height),
            final(self).fonts == old(self).fonts,
            final(self).colors == old(self).colors,
            final(self).list_counters == old(self).list_counters,
    {
        let cleaned = strip_white_space(img.data.as_str());
        match decode_base64(cleaned.as_str().as_bytes()) {
            Some(bytes) => {
                let pict = picture_group(bytes.as_slice(), img.width, img.height);
                self.body.append(pict.as_str());
            },
            None => {
                assert(self.body@ =~= old(self).body@ + rtf_image(img.data@, img.width, img.height));
            },
        }
    }

    fn run(&mut self, run: &InlineElement)
        ensures
            final(self).body@ == old(self).body@ + rtf_run(run@, old(self).tables()).0,
            final(self).tables() == rtf_run(run@, old(self).tables()).1,
    {
        match run {
            InlineElement::Text(t) => self.text_run(t.text.as_str(), &t.style),
            InlineElement::Tab(_) => self.body.append("\\tab "),
            InlineElement::Image(img) => self.image(img),
        }
    }

    fn runs(&mut self, rs: &Vec<InlineElement>)
        ensures
            final(self).body@ == old(self).body@ + rtf_runs(
                rs@.map_values(|r: InlineElement| r@),
                old(self).tables(),
            ).0,
            final(self).tables() == rtf_runs(rs@.map_values(|r: InlineElement| r@), old(self).tables()).1,
    {
        let ghost t0 = self.tables();
        let ghost o0 = self.body@;
        let ghost rv = rs@.map_values(|r: InlineElement| r@);
        let mut k: usize = 0;
        assert(rv.take(0) =~= Seq::<SpecInline>::empty());
        while k < rs.len()
            invariant
                k <= rs.len(),
                rv == rs@.map_values(|r: InlineElement| r@),
                self.body@ == o0 + rtf_runs(rv.take(k as int), t0).0,
                self.tables() == rtf_runs(rv.take(k as int), t0).1,
            decreases rs.len() - k,
        {
            proof {
                assert(rv.take(k + 1) =~= rv.take(k as int).push(rv[k as int]));
                lemma_emit_each_push(rv.take(k as int), rv[k as int], t0, run_step());
            }
            self.run(&rs[k]);
            k = k + 1;
        }
        assert(rv.take(rs.len() as int) =~= rv);
    }

    fn list_marker(&mut self, list: &ListProperties) -> (r: String)
        ensures
            (r@, final(self).list_counters@) == rtf_marker(list@, old(self).list_counters@),
            final(self).body == old(self).body,
            final(self).fonts == old(self).fonts,
            final(self).colors == old(self).colors,
    {
        let mut s = String::new();
        match list.list_type {
            ListType::Bulleted => {
                s.push('\u{2022}');
            },
            ListType::Numbered => {
                let n = bump_counter(&mut self.list_counters, list.list_id);
                push_decimal(&mut s, n as u128);
                s.push('.');
            },
        }
        assert(s@ =~= rtf_marker(list@, old(self).list_counters@).0);
        s
    }

    fn paragraph(&mut self, p: &Paragraph, extra_prefix: &str)
        ensures
            final(self).body@ == old(self).body@ + rtf_paragraph(p@, extra_prefix@, old(self).tables()).0,
            final(self).tables() == rtf_paragraph(p@, extra_prefix@, old(self).tables()).1,
    {
        let ghost o = self.body@;
        let ghost t0 = self.tables();
        self.body.append("\\pard");
        self.body.append(extra_prefix);
        push_align(&mut self.body, p.alignment);
        push_spacing(&mut self.body, p);
        let ghost o1 = self.body@;
        match &p.list {
            Some(list) => {
                let marker = self.list_marker(list);
                self.body.push(' ');
                push_escaped_rtf(&mut self.body, marker.as_str());
                self.body.append("\\tab ");
            },
            None => {
                self.body.push(' ');
            },
        }
        let ghost o2 = self.body@;
        let ghost t1 = self.tables();
        self.runs(&p.runs);
        self.body.append("\\par\n");
        let ghost (lead, t1s) = match p@.list {
            Some(l) => {
                let (m, c2) = rtf_marker(l, t0.counters);
                (
                    seq![' '] + escape_rtf_spec(m) + "\\tab "@,
                    RtfTables { fonts: t0.fonts, colors: t0.colors, counters: c2 },
                )
            },
            None => (seq![' '], t0),
        };
        assert(t1 == t1s);
        assert(o2 =~= o1 + lead);
        assert(self.body@ =~= o + rtf_paragraph(p@, extra_prefix@, t0).0);
    }

    fn block(&mut self, b: &BlockElement)
        ensures
            final(self).body@ == old(self).body@ + rtf_block(view_block(*b), old(self).tables()).0,
            final(self).tables() == rtf_block(view_block(*b), old(self).tables()).1,
    {
        match b {
            BlockElement::Paragraph(p) => {
                proof {
                    reveal_strlit("");
                }
                self.paragraph(p, "");
            },
            BlockElement::Table(t) => self.table(t),
            BlockElement::PageBreak => {
                self.body.append("\\pard\\qc ──────── Sayfa Sonu ────────\\par\n");
            },
        }
    }

    fn blocks(&mut self, bs: &Vec<BlockElement>)
        ensures
            final(self).body@ == old(self).body@ + rtf_blocks(view_blocks(bs@), old(self).tables()).0,
            final(self).tables() == rtf_blocks(view_blocks(bs@), old(self).tables()).1,
    {
        let ghost t0 = self.tables();
        let ghost o0 = self.body@;
        let ghost bv = view_blocks(bs@);
        proof {
            lemma_view_blocks(bs@);
        }
        let mut k: usize = 0;
        assert(bv.take(0) =~= Seq::<SpecBlock>::empty());
        while k < bs.len()
            invariant
                k <= bs.len(),
                bv == view_blocks(bs@),
                bv.len() == bs.len(),
                forall|i: int| 0 <= i < bs.len() ==> #[trigger] bv[i] == view_block(bs@[i]),
                self.body@ == o0 + rtf_blocks(bv.take(k as int), t0).0,
                self.tables() == rtf_blocks(bv.take(k as int), t0).1,
            decreases bs.len() - k,
        {
            proof {
                assert(bv.take(k + 1) =~= bv.take(k as int).push(bv[k as int]));
                lemma_emit_each_push(bv.take(k as int), bv[k as int], t0, block_step());
            }
            self.block(&bs[k]);
            k = k + 1;
        }
        assert(bv.take(bs.len() as int) =~= bv);
    }

    fn table(&mut self, t: &Table)
        ensures
            final(self).body@ == old(self).body@ + rtf_table(view_table(*t), old(self).tables()).0,
            final(self).tables() == rtf_table(view_table(*t), old(self).tables()).1,
    {
        let ghost t0 = self.tables();
        let ghost o0 = self.body@;
        let ghost rv = view_rows(t.rows@);
        proof {
            lemma_view_rows(t.rows@);
        }
        let mut k: usize = 0;
        assert(rv.take(0) =~= Seq::<SpecRow>::empty());
        while k < t.rows.len()
            invariant
                k <= t.rows.len(),
                rv == view_rows(t.rows@),
                rv.len() == t.rows.len(),
                forall|i: int| 0 <= i < t.rows.len() ==> #[trigger] rv[i] == view_row(t.rows@[i]),
                self.body@ == o0 + emit_each(rv.take(k as int), t0, row_step()).0,
                self.tables() == emit_each(rv.take(k as int), t0, row_step()).1,
            decreases t.rows.len() - k,
        {
            proof {
                assert(rv.take(k + 1) =~= rv.take(k as int).push(rv[k as int]));
                lemma_emit_each_push(rv.take(k as int), rv[k as int], t0, row_step());
            }
            self.row(&t.rows[k]);
            k = k + 1;
        }
        assert(rv.take(t.rows.len() as int) =~= rv);
        self.body.append("\\pard\n");
    }

    fn row(&mut self, r: &TableRow)
        ensures
            final(self).body@ == old(self).body@ + rtf_row(view_row(*r), old(self).tables()).0,
            final(self).tables() == rtf_row(view_row(*r), old(self).tables()).1,
    {
        let ghost o0 = self.body@;
        let total = row_total(&r.cells);
        self.body.append("\\trowd\\trgaph108");
        let ghost o1 = self.body@;
        self.cell_defs(&r.cells, total);
        let ghost o2 = self.body@;
        self.cell_bodies(&r.cells);
        let ghost o3 = self.body@;
        self.body.append("\\row\n");
        assert(self.body@ =~= o0 + ("\\trowd\\trgaph108"@ + (o2.subrange(o1.len() as int, o2.len() as int))
            + (o3.subrange(o2.len() as int, o3.len() as int)) + "\\row\n"@));
    }

    fn cell_border_defs(&mut self, cell: &TableCell) -> (r: String)
        ensures
            (r@, final(self).tables()) == rtf_border_defs(view_cell(*cell), old(self).tables()),
            final(self).body == old(self).body,
    {
        proof {
            reveal_strlit("borderStyle-none");
        }
        if str_eq(cell.border.style.as_str(), "borderStyle-none") {
            return String::new();
        }
        let (r, g, b, _) = border_rgb_opaque(cell.border_color);
        let cf = self.color_rgb(r, g, b);
        let tw = twips(cell.border_width.nanos as i128);
        let w: i128 = if tw < 1 { 1 } else { tw };
        let mut s = String::new();
        push_edge(&mut s, cell.border_spec, 1, "\\clbrdrt", w, cf);
        push_edge(&mut s, cell.border_spec, 2, "\\clbrdrr", w, cf);
        push_edge(&mut s, cell.border_spec, 4, "\\clbrdrb", w, cf);
        push_edge(&mut s, cell.border_spec, 8, "\\clbrdrl", w, cf);
        assert(s@ =~= rtf_border_defs(view_cell(*cell), old(self).tables()).0);
        s
    }

    fn cell_defs(&mut self, cells: &Vec<TableCell>, total: i128)
        requires
            1_000_000_000 <= total <= width_cap(),
        ensures
            final(self).body@ == old(self).body@ + rtf_cell_defs(
                view_cells(cells@),
                total as int,
                old(self).tables(),
            ).0,
            final(self).tables() == rtf_cell_defs(view_cells(cells@), total as int, old(self).tables()).1,
    {
        let ghost t0 = self.tables();
        let ghost o0 = self.body@;
        let ghost cv = view_cells(cells@);
        proof {
            lemma_view_cells(cells@);
        }
        let cap: i128 = 0x10_0000_0000_0000_0000_0000_0000;
        let mut acc: i128 = 0;
        let mut k: usize = 0;
        assert(cv.take(0) =~= Seq::<SpecCell>::empty());
        while k < cells.len()
            invariant
                k <= cells.len(),
                cv == view_cells(cells@),
                cv.len() == cells.len(),
                forall|i: int| 0 <= i < cells.len() ==> #[trigger] cv[i] == view_cell(cells@[i]),
                acc == rtf_weight_sum(cv.take(k as int)),
                -cap <= acc <= cap,
                cap == width_cap(),
                1_000_000_000 <= total <= width_cap(),
                self.body@ == o0 + rtf_cell_defs(cv.take(k as int), total as int, t0).0,
                self.tables() == rtf_cell_defs(cv.take(k as int), total as int, t0).1,
            decreases cells.len() - k,
        {
            let ghost pre = cv.take(k as int);
            let ghost next = cv.take(k + 1);
            proof {
                assert(next.drop_last() =~= pre);
            }
            let defs = self.cell_border_defs(&cells[k]);
            self.body.append(defs.as_str());
            let w: i128 = match cells[k].width {
                Some(w) => w.nanos as i128,
                None => 100_000_000_000,
            };
            let sum = acc + w;
            acc = if sum > cap { cap } else if sum < -cap { -cap } else { sum };
            let cellx = saturate_i64_exec(round_div_exec(acc * 9000, total));
            push_control_value(&mut self.body, "\\cellx", cellx as i128);
            k = k + 1;
        }
        assert(cv.take(cells.len() as int) =~= cv);
    }

    fn cell_bodies(&mut self, cells: &Vec<TableCell>)
        ensures
            final(self).body@ == old(self).body@ + emit_each(
                view_cells(cells@),
                old(self).tables(),
                cell_body_step(),
            ).0,
            final(self).tables() == emit_each(view_cells(cells@), old(self).tables(), cell_body_step()).1,
    {
        let ghost t0 = self.tables();
        let ghost o0 = self.body@;
        let ghost cv = view_cells(cells@);
        proof {
            lemma_view_cells(cells@);
        }
        let mut k: usize = 0;
        assert(cv.take(0) =~= Seq::<SpecCell>::empty());
        while k < cells.len()
            invariant
                k <= cells.len(),
                cv == view_cells(cells@),
                cv.len() == cells.len(),
                forall|i: int| 0 <= i < cells.len() ==> #[trigger] cv[i] == view_cell(cells@[i]),
                self.body@ == o0 + emit_each(cv.take(k as int), t0, cell_body_step()).0,
                self.tables() == emit_each(cv.take(k as int), t0, cell_body_step()).1,
            decreases cells.len() - k,
        {
            proof {
                assert(cv.take(k + 1) =~= cv.take(k as int).push(cv[k as int]));
                lemma_emit_each_push(cv.take(k as int), cv[k as int], t0, cell_body_step());
            }
            self.cell_body(&cells[k]);
            k = k + 1;
        }
        assert(cv.take(cells.len() as int) =~= cv);
    }

    fn cell_body(&mut self, c: &TableCell)
        ensures
            final(self).body@ == old(self).body@ + rtf_cell_body(view_cell(*c), old(self).tables()).0,
            final(self).tables() == rtf_cell_body(view_cell(*c), old(self).tables()).1,
    {
        proof {
            lemma_view_blocks(c.content@);
        }
        if c.content.len() == 0 {
            self.body.append("\\pard\\intbl \\cell");
        } else {
            self.cell_blocks(&c.content);
            self.body.append("\\cell");
        }
    }

    fn cell_blocks(&mut self, bs: &Vec<BlockElement>)
        ensures
            final(self).body@ == old(self).body@ + emit_each(
                view_blocks(bs@),
                old(self).tables(),
                cell_block_step(),
            ).0,
            final(self).tables() == emit_each(view_blocks(bs@), old(self).tables(), cell_block_step()).1,
    {
        let ghost t0 = self.tables();
        let ghost o0 = self.body@;
        let ghost bv = view_blocks(bs@);
        proof {
            lemma_view_blocks(bs@);
        }
        let mut k: usize = 0;
        assert(bv.take(0) =~= Seq::<SpecBlock>::empty());
        while k < bs.len()
            invariant
                k <= bs.len(),
                bv == view_blocks(bs@),
                bv.len() == bs.len(),
                forall|i: int| 0 <= i < bs.len() ==> #[trigger] bv[i] == view_block(bs@[i]),
                self.body@ == o0 + emit_each(bv.take(k as int), t0, cell_block_step()).0,
                self.tables() == emit_each(bv.take(k as int), t0, cell_block_step()).1,
            decreases bs.len() - k,
        {
            proof {
                assert(bv.take(k + 1) =~= bv.take(k as int).push(bv[k as int]));
                lemma_emit_each_push(bv.take(k as int), bv[k as int], t0, cell_block_step());
            }
            self.cell_block(&bs[k]);
            k = k + 1;
        }
        assert(bv.take(bs.len() as int) =~= bv);
    }

    fn cell_block(&mut self, b: &BlockElement)
        ensures
            final(self).body@ == old(self).body@ + rtf_cell_block(view_block(*b), old(self).tables()).0,
            final(self).tables() == rtf_cell_block(view_block(*b), old(self).tables()).1,
    {
        match b {
            BlockElement::Paragraph(p) => self.cell_paragraph(p),
            BlockElement::Table(inner) => self.flatten_table_into_cell(inner),
            BlockElement::PageBreak => {
                assert(self.body@ =~= old(self).body@ + rtf_cell_block(view_block(*b), old(self).tables()).0);
            },
        }
    }

    fn cell_paragraph(&mut self, p: &Paragraph)
        ensures
            final(self).body@ == old(self).body@ + rtf_cell_paragraph(p@, old(self).tables()).0,
            final(self).tables() == rtf_cell_paragraph(p@, old(self).tables()).1,
    {
        let ghost o0 = self.body@;
        self.body.append("\\pard\\intbl");
        push_align(&mut self.body, p.alignment);
        self.body.push(' ');
        let ghost o1 = self.body@;
        self.runs(&p.runs);
        assert(self.body@ =~= o0 + ("\\pard\\intbl"@ + rtf_align(p.alignment) + seq![' '])
            + self.body@.subrange(o1.len() as int, self.body@.len() as int));
    }

    fn flatten_table_into_cell(&mut self, t: &Table)
        ensures
            final(self).body@ == old(self).body@ + rtf_flat_table(view_table(*t), old(self).tables()).0,
            final(self).tables() == rtf_flat_table(view_table(*t), old(self).tables()).1,
    {
        let ghost t0 = self.tables();
        let ghost o0 = self.body@;
        let ghost rv = view_rows(t.rows@);
        proof {
            lemma_view_rows(t.rows@);
        }
        let mut k: usize = 0;
        assert(rv.take(0) =~= Seq::<SpecRow>::empty());
        while k < t.rows.len()
            invariant
                k <= t.rows.len(),
                rv == view_rows(t.rows@),
                rv.len() == t.rows.len(),
                forall|i: int| 0 <= i < t.rows.len() ==> #[trigger] rv[i] == view_row(t.rows@[i]),
                self.body@ == o0 + emit_each(rv.take(k as int), t0, flat_row_step()).0,
                self.tables() == emit_each(rv.take(k as int), t0, flat_row_step()).1,
            decreases t.rows.len() - k,
        {
            proof {
                assert(rv.take(k + 1) =~= rv.take(k as int).push(rv[k as int]));
                lemma_emit_each_push(rv.take(k as int), rv[k as int], t0, flat_row_step());
            }
            self.flat_cells(&t.rows[k].cells);
            k = k + 1;
        }
        assert(rv.take(t.rows.len() as int) =~= rv);
    }

    fn flat_cells(&mut self, cells: &Vec<TableCell>)
        ensures
            final(self).body@ == old(self).body@ + emit_each(
                view_cells(cells@),
                old(self).tables(),
                flat_cell_step(),
            ).0,
            final(self).tables() == emit_each(view_cells(cells@), old(self).tables(), flat_cell_step()).1,
    {
        let ghost t0 = self.tables();
        let ghost o0 = self.body@;
        let ghost cv = view_cells(cells@);
        proof {
            lemma_view_cells(cells@);
        }
        let mut k: usize = 0;
        assert(cv.take(0) =~= Seq::<SpecCell>::empty());
        while k < cells.len()
            invariant
                k <= cells.len(),
                cv == view_cells(cells@),
                cv.len() == cells.len(),
                forall|i: int| 0 <= i < cells.len() ==> #[trigger] cv[i] == view_cell(cells@[i]),
                self.body@ == o0 + emit_each(cv.take(k as int), t0, flat_cell_step()).0,
                self.tables() == emit_each(cv.take(k as int), t0, flat_cell_step()).1,
            decreases cells.len() - k,
        {
            proof {
                assert(cv.take(k + 1) =~= cv.take(k as int).push(cv[k as int]));
                lemma_emit_each_push(cv.take(k as int), cv[k as int], t0, flat_cell_step());
            }
            self.flat_blocks(&cells[k].content);
            k = k + 1;
        }
        assert(cv.take(cells.len() as int) =~= cv);
    }

    fn flat_blocks(&mut self, bs: &Vec<BlockElement>)
        ensures
            final(self).body@ == old(self).body@ + emit_each(
                view_blocks(bs@),
                old(self).tables(),
                flat_block_step(),
            ).0,
            final(self).tables() == emit_each(view_blocks(bs@), old(self).tables(), flat_block_step()).1,
    {
        let ghost t0 = self.tables();
        let ghost o0 = self.body@;
        let ghost bv = view_blocks(bs@);
        proof {
            lemma_view_blocks(bs@);
        }
        let mut k: usize = 0;
        assert(bv.take(0) =~= Seq::<SpecBlock>::empty());
        while k < bs.len()
            invariant
                k <= bs.len(),
                bv == view_blocks(bs@),
                bv.len() == bs.len(),
                forall|i: int| 0 <= i < bs.len() ==> #[trigger] bv[i] == view_block(bs@[i]),
                self.body@ == o0 + emit_each(bv.take(k as int), t0, flat_block_step()).0,
                self.tables() == emit_each(bv.take(k as int), t0, flat_block_step()).1,
            decreases bs.len() - k,
        {
            proof {
                assert(bv.take(k + 1) =~= bv.take(k as int).push(bv[k as int]));
                lemma_emit_each_push(bv.take(k as int), bv[k as int], t0, flat_block_step());
            }
            match &bs[k] {
                BlockElement::Paragraph(p) => {
                    self.body.append("\\pard\\intbl ");
                    self.runs(&p.runs);
                },
                _ => {},
            }
            k = k + 1;
        }
        assert(bv.take(bs.len() as int) =~= bv);
    }

    fn finish(self) -> (r: String)
        ensures
            r@ == rtf_document(self.tables(), self.body@),
    {
        let mut out = String::new();
        out.push('{');
        out.append("\\rtf1\\ansi\\ansicpg1254\\deff0");
        push_font_table(&mut out, &self.fonts);
        push_color_table(&mut out, &self.colors);
        out.append("\\f0\\fs24\n");
        out.append(self.body.as_str());
        out.push('}');
        assert(out@ =~= rtf_document(self.tables(), self.body@));
        out
    }
}

/// The font table group `{\fonttbl{\f0\fnil name;}...}`.
fn push_font_table(out: &mut String, fonts: &Vec<String>)
    ensures
        final(out)@ == old(out)@ + (seq!['{'] + ("\\fonttbl"@ + font_entries(
            fonts@.map_values(|f: String| f@),
        )) + seq!['}']),
{
    let ghost o = out@;
    let ghost names = fonts@.map_values(|f: String| f@);
    out.push('{');
    out.append("\\fonttbl");
    let ghost o1 = out@;
    let mut i: usize = 0;
    assert(names.take(0) =~= Seq::<Seq<char>>::empty());
    while i < fonts.len()
        invariant
            i <= fonts.len(),
            names == fonts@.map_values(|f: String| f@),
            out@ == o1 + font_entries(names.take(i as int)),
        decreases fonts.len() - i,
    {
        assert(names.take(i + 1).drop_last() =~= names.take(i as int));
        let ghost before = out@;
        out.push('{');
        push_control_value(out, "\\f", i as i128);
        out.append("\\fnil ");
        push_escaped_rtf(out, fonts[i].as_str());
        out.push(';');
        out.push('}');
        assert(out@ =~= before + font_entry(i as int, names[i as int]));
        i = i + 1;
    }
    assert(names.take(fonts.len() as int) =~= names);
    out.push('}');
    assert(out@ =~= o + (seq!['{'] + ("\\fonttbl"@ + font_entries(names)) + seq!['}']));
}

/// The colour table group `{\colortbl;\redR\greenG\blueB;...}` (slot 0 automatic).
fn push_color_table(out: &mut String, colors: &Vec<(u8, u8, u8)>)
    ensures
        final(out)@ == old(out)@ + (seq!['{'] + ("\\colortbl;"@ + color_entries(colors@)) + seq!['}']),
{
    let ghost o = out@;
    out.push('{');
    out.append("\\colortbl;");
    let ghost o1 = out@;
    let mut i: usize = 0;
    assert(colors@.take(0) =~= Seq::<(u8, u8, u8)>::empty());
    while i < colors.len()
        invariant
            i <= colors.len(),
            out@ == o1 + color_entries(colors@.take(i as int)),
        decreases colors.len() - i,
    {
        assert(colors@.take(i + 1).drop_last() =~= colors@.take(i as int));
        let ghost before = out@;
        let c = colors[i];
        push_control_value(out, "\\red", c.0 as i128);
        push_control_value(out, "\\green", c.1 as i128);
        push_control_value(out, "\\blue", c.2 as i128);
        out.push(';');
        assert(out@ =~= before + color_entry(colors@[i as int]));
        i = i + 1;
    }
    assert(colors@.take(colors.len() as int) =~= colors@);
    out.push('}');
    assert(out@ =~= o + (seq!['{'] + ("\\colortbl;"@ + color_entries(colors@)) + seq!['}']));
}

fn push_edge(out: &mut String, bits: i32, bit: i32, word: &str, w: i128, cf: usize)
    requires
        w > i128::MIN,
    ensures
        final(out)@ == old(out)@ + rtf_edge(bits, bit, word@, w as int, cf as int),
{
    let ghost o = out@;
    if bits & bit != 0 {
        out.append(word);
        out.append("\\brdrs");
        push_control_value(out, "\\brdrw", w);
        push_control_value(out, "\\brdrcf", cf as i128);
    }
    assert(out@ =~= o + rtf_edge(bits, bit, word@, w as int, cf as int));
}

/// The total weight of a row's cells (at least one point).
fn row_total(cells: &Vec<TableCell>) -> (r: i128)
    ensures
        r == rtf_row_total(view_cells(cells@)),
        1_000_000_000 <= r <= width_cap(),
{
    let ghost cv = view_cells(cells@);
    proof {
        lemma_view_cells(cells@);
    }
    let cap: i128 = 0x10_0000_0000_0000_0000_0000_0000;
    let mut acc: i128 = 0;
    let mut k: usize = 0;
    assert(cv.take(0) =~= Seq::<SpecCell>::empty());
    while k < cells.len()
        invariant
            k <= cells.len(),
            cv == view_cells(cells@),
            cv.len() == cells.len(),
            forall|i: int| 0 <= i < cells.len() ==> #[trigger] cv[i] == view_cell(cells@[i]),
            acc == rtf_weight_sum(cv.take(k as int)),
            -cap <= acc <= cap,
            cap == width_cap(),
        decreases cells.len() - k,
    {
        assert(cv.take(k + 1).drop_last() =~= cv.take(k as int));
        let w: i128 = match cells[k].width {
            Some(w) => w.nanos as i128,
            None => 100_000_000_000,
        };
        let sum = acc + w;
        acc = if sum > cap { cap } else if sum < -cap { -cap } else { sum };
        k = k + 1;
    }
    assert(cv.take(cells.len() as int) =~= cv);
    if acc > 1_000_000_000 { acc } else { 1_000_000_000 }
}

/// Render a [`Document`] to an RTF string.
pub fn to_rtf(doc: &Document) -> (r: String)
    ensures
        r@ == spec_to_rtf(doc@),
{
    let mut b = RtfBuilder::new();
    b.blocks(&doc.header);
    b.blocks(&doc.body);
    b.blocks(&doc.footer);
    b.finish()
}

fn push_spacing(out: &mut String, p: &Paragraph)
    ensures
        final(out)@ == old(out)@ + rtf_spacing(p@),
{
    let ghost o = out@;
    push_control(out, p.space_before.nanos > 0, "\\sb", p.space_before);
    push_control(out, p.space_after.nanos > 0, "\\sa", p.space_after);
    let ghost o1 = out@;
    assert(o1 =~= o + rtf_space_around(p@));
    push_control(out, p.left_indent.nanos != 0, "\\li", p.left_indent);
    push_control(out, p.right_indent.nanos != 0, "\\ri", p.right_indent);
    push_control(out, p.first_line_indent.nanos != 0, "\\fi", p.first_line_indent);
    assert(out@ =~= o1 + rtf_indents(p@));
    assert(out@ =~= o + rtf_spacing(p@));
}

fn push_run_head(out: &mut String, f: usize, hp: i128, cf: usize, style: &TextStyle)
    requires
        hp > i128::MIN,
    ensures
        final(out)@ == old(out)@ + run_head(f as int, hp as int, cf as int, style@),
{
    let ghost o = out@;
    push_control_value(out, "\\f", f as i128);
    push_control_value(out, "\\fs", hp);
    push_control_value(out, "\\cf", cf as i128);
    let ghost o1 = out@;
    if style.bold {
        out.append("\\b");
    }
    if style.italic {
        out.append("\\i");
    }
    if style.underline {
        out.append("\\ul");
    }
    if style.strikethrough {
        out.append("\\strike");
    }
    assert(out@ =~= o1 + run_flags(style@));
    assert(out@ =~= o + run_head(f as int, hp as int, cf as int, style@));
}

fn push_align(out: &mut String, a: Alignment)
    ensures
        final(out)@ == old(out)@ + rtf_align(a),
{
    match a {
        Alignment::Left => out.append("\\ql"),
        Alignment::Center => out.append("\\qc"),
        Alignment::Right => out.append("\\qr"),
        Alignment::Justify => out.append("\\qj"),
    }
}

/// Appends a control word and its numeric argument.
fn push_control_value(out: &mut String, word: &str, v: i128)
    requires
        v > i128::MIN,
    ensures
        final(out)@ == old(out)@ + control(word@, v as int),
{
    proof {
        reveal(control);
    }
    out.append(word);
    push_signed(out, v);
    assert(final(out)@ =~= old(out)@ + control(word@, v as int));
}

/// Appends `word` and the value in twips when `cond` holds.
fn push_control(out: &mut String, cond: bool, word: &str, v: Num)
    ensures
        final(out)@ == old(out)@ + part_if(cond, control(word@, spec_twips(v.nanos as int))),
{
    let ghost o = out@;
    if cond {
        push_control_value(out, word, twips(v.nanos as i128));
    }
    assert(out@ =~= o + part_if(cond, control(word@, spec_twips(v.nanos as int))));
}

// ---------------------------------------------------------------------------
// Every document renders to balanced braces
// ---------------------------------------------------------------------------

proof fn lemma_part_if_neutral(cond: bool, x: Seq<char>)
    requires
        neutral(x),
    ensures
        neutral(part_if(cond, x)),
{
}

proof fn lemma_control_neutral(word: Seq<char>, v: int)
    requires
        neutral(word),
    ensures
        neutral(control(word, v)),
{
    broadcast use lemma_neutral_concat;

    reveal(control);
    lemma_signed_neutral(v);
}

proof fn lemma_run_words_neutral()
    ensures
        neutral("\\f"@),
        neutral("\\fs"@),
        neutral("\\cf"@),
        neutral("\\b"@),
        neutral("\\i"@),
        neutral("\\ul"@),
        neutral("\\strike"@),
        neutral("\\highlight"@),
        neutral("\\tab "@),
        neutral(seq![' ']),
{
    reveal_strlit("\\f");
    reveal_strlit("\\fs");
    reveal_strlit("\\cf");
    reveal_strlit("\\b");
    reveal_strlit("\\i");
    reveal_strlit("\\ul");
    reveal_strlit("\\strike");
    reveal_strlit("\\highlight");
    reveal_strlit("\\tab ");
    lemma_plain_neutral("\\f"@);
    lemma_plain_neutral("\\fs"@);
    lemma_plain_neutral("\\cf"@);
    lemma_plain_neutral("\\b"@);
    lemma_plain_neutral("\\i"@);
    lemma_plain_neutral("\\ul"@);
    lemma_plain_neutral("\\strike"@);
    lemma_plain_neutral("\\highlight"@);
    lemma_plain_neutral("\\tab "@);
    lemma_plain_neutral(seq![' ']);
}

proof fn lemma_picture_words_neutral()
    ensures
        neutral("\\pict"@),
        neutral("\\jpegblip"@),
        neutral("\\pngblip"@),
        neutral("\\picwgoal"@),
        neutral("\\pichgoal"@),
{
    reveal_strlit("\\pict");
    reveal_strlit("\\jpegblip");
    reveal_strlit("\\pngblip");
    reveal_strlit("\\picwgoal");
    reveal_strlit("\\pichgoal");
    lemma_plain_neutral("\\pict"@);
    lemma_plain_neutral("\\jpegblip"@);
    lemma_plain_neutral("\\pngblip"@);
    lemma_plain_neutral("\\picwgoal"@);
    lemma_plain_neutral("\\pichgoal"@);
}

proof fn lemma_paragraph_words_neutral()
    ensures
        neutral("\\pard"@),
        neutral("\\ql"@),
        neutral("\\qc"@),
        neutral("\\qr"@),
        neutral("\\qj"@),
        neutral("\\sb"@),
        neutral("\\sa"@),
        neutral("\\li"@),
        neutral("\\ri"@),
        neutral("\\fi"@),
        neutral("\\par\n"@),
        neutral("\\pard\\intbl"@),
        neutral("\\pard\\intbl "@),
        neutral(page_break_rtf()),
{
    reveal_strlit("\\pard");
    reveal_strlit("\\ql");
    reveal_strlit("\\qc");
    reveal_strlit("\\qr");
    reveal_strlit("\\qj");
    reveal_strlit("\\sb");
    reveal_strlit("\\sa");
    reveal_strlit("\\li");
    reveal_strlit("\\ri");
    reveal_strlit("\\fi");
    reveal_strlit("\\par\n");
    reveal_strlit("\\pard\\intbl");
    reveal_strlit("\\pard\\intbl ");
    reveal_strlit("\\pard\\qc ──────── Sayfa Sonu ────────\\par\n");
    lemma_plain_neutral("\\pard"@);
    lemma_plain_neutral("\\ql"@);
    lemma_plain_neutral("\\qc"@);
    lemma_plain_neutral("\\qr"@);
    lemma_plain_neutral("\\qj"@);
    lemma_plain_neutral("\\sb"@);
    lemma_plain_neutral("\\sa"@);
    lemma_plain_neutral("\\li"@);
    lemma_plain_neutral("\\ri"@);
    lemma_plain_neutral("\\fi"@);
    lemma_plain_neutral("\\par\n"@);
    lemma_plain_neutral("\\pard\\intbl"@);
    lemma_plain_neutral("\\pard\\intbl "@);
    lemma_plain_neutral(page_break_rtf());
}

proof fn lemma_table_words_neutral()
    ensures
        neutral("\\trowd\\trgaph108"@),
        neutral("\\row\n"@),
        neutral("\\pard\n"@),
        neutral("\\cell"@),
        neutral("\\pard\\intbl \\cell"@),
        neutral("\\cellx"@),
        neutral("\\clbrdrt"@),
        neutral("\\clbrdrr"@),
        neutral("\\clbrdrb"@),
        neutral("\\clbrdrl"@),
        neutral("\\brdrs"@),
        neutral("\\brdrw"@),
        neutral("\\brdrcf"@),
{
    reveal_strlit("\\trowd\\trgaph108");
    reveal_strlit("\\row\n");
    reveal_strlit("\\pard\n");
    reveal_strlit("\\cell");
    reveal_strlit("\\pard\\intbl \\cell");
    reveal_strlit("\\cellx");
    reveal_strlit("\\clbrdrt");
    reveal_strlit("\\clbrdrr");
    reveal_strlit("\\clbrdrb");
    reveal_strlit("\\clbrdrl");
    reveal_strlit("\\brdrs");
    reveal_strlit("\\brdrw");
    reveal_strlit("\\brdrcf");
    lemma_plain_neutral("\\trowd\\trgaph108"@);
    lemma_plain_neutral("\\row\n"@);
    lemma_plain_neutral("\\pard\n"@);
    lemma_plain_neutral("\\cell"@);
    lemma_plain_neutral("\\pard\\intbl \\cell"@);
    lemma_plain_neutral("\\cellx"@);
    lemma_plain_neutral("\\clbrdrt"@);
    lemma_plain_neutral("\\clbrdrr"@);
    lemma_plain_neutral("\\clbrdrb"@);
    lemma_plain_neutral("\\clbrdrl"@);
    lemma_plain_neutral("\\brdrs"@);
    lemma_plain_neutral("\\brdrw"@);
    lemma_plain_neutral("\\brdrcf"@);
}

proof fn lemma_document_words_neutral()
    ensures
        neutral("\\rtf1\\ansi\\ansicpg1254\\deff0"@),
        neutral("\\fonttbl"@),
        neutral("\\fnil "@),
        neutral(seq![';']),
        neutral("\\colortbl;"@),
        neutral("\\red"@),
        neutral("\\green"@),
        neutral("\\blue"@),
        neutral("\\f0\\fs24\n"@),
{
    reveal_strlit("\\rtf1\\ansi\\ansicpg1254\\deff0");
    reveal_strlit("\\fonttbl");
    reveal_strlit("\\fnil ");
    reveal_strlit("\\colortbl;");
    reveal_strlit("\\red");
    reveal_strlit("\\green");
    reveal_strlit("\\blue");
    reveal_strlit("\\f0\\fs24\n");
    lemma_plain_neutral("\\rtf1\\ansi\\ansicpg1254\\deff0"@);
    lemma_plain_neutral("\\fonttbl"@);
    lemma_plain_neutral("\\fnil "@);
    lemma_plain_neutral(seq![';']);
    lemma_plain_neutral("\\colortbl;"@);
    lemma_plain_neutral("\\red"@);
    lemma_plain_neutral("\\green"@);
    lemma_plain_neutral("\\blue"@);
    lemma_plain_neutral("\\f0\\fs24\n"@);
}

proof fn lemma_text_run_neutral(text: Seq<char>, style: SpecTextStyle, t: RtfTables)
    ensures
        neutral(rtf_text_run(text, style, t).0),
{
    broadcast use lemma_neutral_concat;

    if text.len() == 0 {
        lemma_neutral_empty();
    } else {
        lemma_run_words_neutral();
        let (f, fonts) = font_slot(t.fonts, style.font_family);
        let (cf, colors1) = color_slot(t.colors, rgb_of(style.color));
        let hp = spec_half_points(style.font_size.nanos as int);
        lemma_control_neutral("\\f"@, f);
        lemma_control_neutral("\\fs"@, hp);
        lemma_control_neutral("\\cf"@, cf);
        lemma_part_if_neutral(style.bold, "\\b"@);
        lemma_part_if_neutral(style.italic, "\\i"@);
        lemma_part_if_neutral(style.underline, "\\ul"@);
        lemma_part_if_neutral(style.strikethrough, "\\strike"@);
        assert(neutral(run_head(f, hp, cf, style)));
        if style.background_color != -1 {
            let (h, c2) = color_slot(colors1, rgb_of(style.background_color));
            lemma_decimal_neutral(h as nat);
        } else {
            lemma_neutral_empty();
        }
        lemma_escape_neutral(text);
        let inner = run_head(f, hp, cf, style) + (if style.background_color != -1 {
            "\\highlight"@ + decimal(color_slot(colors1, rgb_of(style.background_color)).0 as nat)
        } else {
            Seq::empty()
        }) + seq![' '] + escape_rtf_spec(text);
        assert(neutral(inner));
        lemma_neutral_group(inner);
    }
}

proof fn lemma_hex_bytes_neutral(b: Seq<u8>)
    ensures
        neutral(hex_bytes(b)),
    decreases b.len(),
{
    broadcast use lemma_neutral_concat;

    if b.len() == 0 {
        lemma_neutral_empty();
    } else {
        lemma_hex_bytes_neutral(b.drop_last());
        lemma_plain_neutral(hex2(b.last()));
    }
}

proof fn lemma_picture_neutral(bytes: Seq<u8>, width: Num, height: Num)
    ensures
        neutral(spec_picture(bytes, width, height)),
{
    broadcast use lemma_neutral_concat;

    if bytes.len() == 0 {
        lemma_neutral_empty();
    } else {
        lemma_picture_words_neutral();
        lemma_run_words_neutral();
        lemma_signed_neutral(spec_twips(width.nanos as int));
        lemma_signed_neutral(spec_twips(height.nanos as int));
        lemma_hex_bytes_neutral(bytes);
        let inner = "\\pict"@ + (if is_jpeg(bytes) {
            "\\jpegblip"@
        } else {
            "\\pngblip"@
        }) + "\\picwgoal"@ + signed_decimal(spec_twips(width.nanos as int)) + "\\pichgoal"@
            + signed_decimal(spec_twips(height.nanos as int)) + seq![' '] + hex_bytes(bytes);
        assert(neutral(inner));
        lemma_neutral_group(inner);
    }
}

proof fn lemma_run_neutral(r: SpecInline, t: RtfTables)
    ensures
        neutral(rtf_run(r, t).0),
{
    match r {
        SpecInline::Text { text, style } => lemma_text_run_neutral(text, style, t),
        SpecInline::Tab { .. } => lemma_run_words_neutral(),
        SpecInline::Image { data, width, height } => {
            match base64_standard_decode(vstd::utf8::encode_utf8(without_white_space(data))) {
                Some(bytes) => lemma_picture_neutral(bytes, width, height),
                None => lemma_neutral_empty(),
            }
        },
    }
}

proof fn lemma_runs_neutral(rs: Seq<SpecInline>, t: RtfTables)
    ensures
        neutral(rtf_runs(rs, t).0),
{
    assert forall|x: SpecInline, u: RtfTables| #[trigger] neutral(run_step()(x, u).0) by {
        lemma_run_neutral(x, u);
    }
    lemma_emit_each_neutral(rs, t, run_step());
}

proof fn lemma_align_neutral(a: Alignment)
    ensures
        neutral(rtf_align(a)),
{
    lemma_paragraph_words_neutral();
}

proof fn lemma_paragraph_neutral(p: SpecParagraph, prefix: Seq<char>, t: RtfTables)
    requires
        neutral(prefix),
    ensures
        neutral(rtf_paragraph(p, prefix, t).0),
{
    broadcast use lemma_neutral_concat;

    lemma_paragraph_words_neutral();
    lemma_run_words_neutral();
    lemma_align_neutral(p.alignment);
    lemma_control_neutral("\\sb"@, spec_twips(p.space_before.nanos as int));
    lemma_control_neutral("\\sa"@, spec_twips(p.space_after.nanos as int));
    lemma_control_neutral("\\li"@, spec_twips(p.left_indent.nanos as int));
    lemma_control_neutral("\\ri"@, spec_twips(p.right_indent.nanos as int));
    lemma_control_neutral("\\fi"@, spec_twips(p.first_line_indent.nanos as int));
    lemma_part_if_neutral(
        p.space_before.nanos > 0,
        control("\\sb"@, spec_twips(p.space_before.nanos as int)),
    );
    lemma_part_if_neutral(
        p.space_after.nanos > 0,
        control("\\sa"@, spec_twips(p.space_after.nanos as int)),
    );
    lemma_part_if_neutral(
        p.left_indent.nanos != 0,
        control("\\li"@, spec_twips(p.left_indent.nanos as int)),
    );
    lemma_part_if_neutral(
        p.right_indent.nanos != 0,
        control("\\ri"@, spec_twips(p.right_indent.nanos as int)),
    );
    lemma_part_if_neutral(
        p.first_line_indent.nanos != 0,
        control("\\fi"@, spec_twips(p.first_line_indent.nanos as int)),
    );
    assert(neutral(rtf_spacing(p)));
    let t1 = match p.list {
        Some(l) => {
            let (m, c2) = rtf_marker(l, t.counters);
            lemma_escape_neutral(m);
            RtfTables { fonts: t.fonts, colors: t.colors, counters: c2 }
        },
        None => t,
    };
    lemma_runs_neutral(p.runs, t1);
}

proof fn lemma_cell_paragraph_neutral(p: SpecParagraph, t: RtfTables)
    ensures
        neutral(rtf_cell_paragraph(p, t).0),
{
    broadcast use lemma_neutral_concat;

    lemma_paragraph_words_neutral();
    lemma_run_words_neutral();
    lemma_align_neutral(p.alignment);
    lemma_runs_neutral(p.runs, t);
}

proof fn lemma_flat_table_neutral(tb: SpecTable, t: RtfTables)
    ensures
        neutral(rtf_flat_table(tb, t).0),
{
    broadcast use lemma_neutral_concat;

    lemma_paragraph_words_neutral();
    assert forall|b: SpecBlock, u: RtfTables| #[trigger] neutral(flat_block_step()(b, u).0) by {
        match b {
            SpecBlock::Paragraph(p) => lemma_runs_neutral(p.runs, u),
            _ => lemma_neutral_empty(),
        }
    }
    assert forall|c: SpecCell, u: RtfTables| #[trigger] neutral(flat_cell_step()(c, u).0) by {
        lemma_emit_each_neutral(c.content, u, flat_block_step());
    }
    assert forall|r: SpecRow, u: RtfTables| #[trigger] neutral(flat_row_step()(r, u).0) by {
        lemma_emit_each_neutral(r.cells, u, flat_cell_step());
    }
    lemma_emit_each_neutral(tb.rows, t, flat_row_step());
}

proof fn lemma_cell_body_neutral(c: SpecCell, t: RtfTables)
    ensures
        neutral(rtf_cell_body(c, t).0),
{
    broadcast use lemma_neutral_concat;

    lemma_table_words_neutral();
    assert forall|b: SpecBlock, u: RtfTables| #[trigger] neutral(cell_block_step()(b, u).0) by {
        match b {
            SpecBlock::Paragraph(p) => lemma_cell_paragraph_neutral(p, u),
            SpecBlock::Table(tb) => lemma_flat_table_neutral(tb, u),
            SpecBlock::PageBreak => lemma_neutral_empty(),
        }
    }
    lemma_emit_each_neutral(c.content, t, cell_block_step());
}

proof fn lemma_edge_neutral(bits: i32, bit: i32, word: Seq<char>, w: int, cf: int)
    requires
        neutral(word),
    ensures
        neutral(rtf_edge(bits, bit, word, w, cf)),
{
    broadcast use lemma_neutral_concat;

    lemma_table_words_neutral();
    lemma_control_neutral("\\brdrw"@, w);
    lemma_control_neutral("\\brdrcf"@, cf);
}

proof fn lemma_border_defs_neutral(c: SpecCell, t: RtfTables)
    ensures
        neutral(rtf_border_defs(c, t).0),
{
    broadcast use lemma_neutral_concat;

    if c.border.style == "borderStyle-none"@ {
        lemma_neutral_empty();
    } else {
        lemma_table_words_neutral();
        let (cf, colors) = color_slot(t.colors, rgb_of(c.border_color));
        let w = border_twips(c.border_width);
        lemma_edge_neutral(c.border_spec, 1, "\\clbrdrt"@, w, cf);
        lemma_edge_neutral(c.border_spec, 2, "\\clbrdrr"@, w, cf);
        lemma_edge_neutral(c.border_spec, 4, "\\clbrdrb"@, w, cf);
        lemma_edge_neutral(c.border_spec, 8, "\\clbrdrl"@, w, cf);
    }
}

proof fn lemma_cell_defs_neutral(cs: Seq<SpecCell>, total: int, t: RtfTables)
    ensures
        neutral(rtf_cell_defs(cs, total, t).0),
    decreases cs.len(),
{
    broadcast use lemma_neutral_concat;

    if cs.len() == 0 {
        lemma_neutral_empty();
    } else {
        lemma_cell_defs_neutral(cs.drop_last(), total, t);
        lemma_border_defs_neutral(cs.last(), rtf_cell_defs(cs.drop_last(), total, t).1);
        lemma_table_words_neutral();
        lemma_control_neutral("\\cellx"@, cell_right(cs, total));
    }
}

proof fn lemma_table_neutral(tb: SpecTable, t: RtfTables)
    ensures
        neutral(rtf_table(tb, t).0),
{
    broadcast use lemma_neutral_concat;

    lemma_table_words_neutral();
    assert forall|c: SpecCell, u: RtfTables| #[trigger] neutral(cell_body_step()(c, u).0) by {
        lemma_cell_body_neutral(c, u);
    }
    assert forall|r: SpecRow, u: RtfTables| #[trigger] neutral(row_step()(r, u).0) by {
        lemma_cell_defs_neutral(r.cells, rtf_row_total(r.cells), u);
        let t1 = rtf_cell_defs(r.cells, rtf_row_total(r.cells), u).1;
        lemma_emit_each_neutral(r.cells, t1, cell_body_step());
    }
    lemma_emit_each_neutral(tb.rows, t, row_step());
}

proof fn lemma_blocks_neutral(bs: Seq<SpecBlock>, t: RtfTables)
    ensures
        neutral(rtf_blocks(bs, t).0),
{
    assert forall|b: SpecBlock, u: RtfTables| #[trigger] neutral(block_step()(b, u).0) by {
        match b {
            SpecBlock::Paragraph(p) => {
                lemma_neutral_empty();
                lemma_paragraph_neutral(p, Seq::empty(), u);
            },
            SpecBlock::Table(tb) => lemma_table_neutral(tb, u),
            SpecBlock::PageBreak => lemma_paragraph_words_neutral(),
        }
    }
    lemma_emit_each_neutral(bs, t, block_step());
}

proof fn lemma_font_entries_neutral(fonts: Seq<Seq<char>>)
    ensures
        neutral(font_entries(fonts)),
    decreases fonts.len(),
{
    broadcast use lemma_neutral_concat;

    if fonts.len() == 0 {
        lemma_neutral_empty();
    } else {
        lemma_font_entries_neutral(fonts.drop_last());
        lemma_run_words_neutral();
        lemma_document_words_neutral();
        lemma_control_neutral("\\f"@, fonts.len() - 1);
        lemma_escape_neutral(fonts.last());
        lemma_neutral_group(
            control("\\f"@, fonts.len() - 1) + "\\fnil "@ + escape_rtf_spec(fonts.last()) + seq![';'],
        );
    }
}

proof fn lemma_color_entries_neutral(cs: Seq<(u8, u8, u8)>)
    ensures
        neutral(color_entries(cs)),
    decreases cs.len(),
{
    broadcast use lemma_neutral_concat;

    if cs.len() == 0 {
        lemma_neutral_empty();
    } else {
        lemma_color_entries_neutral(cs.drop_last());
        lemma_document_words_neutral();
        lemma_control_neutral("\\red"@, cs.last().0 as int);
        lemma_control_neutral("\\green"@, cs.last().1 as int);
        lemma_control_neutral("\\blue"@, cs.last().2 as int);
    }
}

proof fn lemma_rtf_inner_neutral(d: SpecDocument)
    ensures
        spec_to_rtf(d) == seq!['{'] + rtf_document_inner(rtf_body(d).1, rtf_body(d).0) + seq!['}'],
        neutral(rtf_document_inner(rtf_body(d).1, rtf_body(d).0)),
{
    broadcast use lemma_neutral_concat;

    let (h, t1) = rtf_blocks(d.header, initial_tables());
    let (b, t2) = rtf_blocks(d.body, t1);
    let (f, t3) = rtf_blocks(d.footer, t2);
    assert(rtf_body(d) == (h + b + f, t3));
    lemma_blocks_neutral(d.header, initial_tables());
    lemma_blocks_neutral(d.body, t1);
    lemma_blocks_neutral(d.footer, t2);
    lemma_document_words_neutral();
    lemma_font_entries_neutral(t3.fonts);
    lemma_color_entries_neutral(t3.colors);
    lemma_neutral_group("\\fonttbl"@ + font_entries(t3.fonts));
    lemma_neutral_group("\\colortbl;"@ + color_entries(t3.colors));
    assert(neutral(rtf_document_inner(t3, h + b + f)));
}

/// The RTF of every document is brace-balanced: scanning it left to right, no unescaped
/// `}` closes a group that was not opened, and every unescaped `{` is closed.
pub proof fn lemma_rtf_braces_balanced(d: SpecDocument)
    ensures
        braces_balanced(spec_to_rtf(d)),
{
    lemma_rtf_inner_neutral(d);
    lemma_neutral_group(rtf_document_inner(rtf_body(d).1, rtf_body(d).0));
    let start = BraceScan { depth: 0, escaped: false, dipped: false };
    assert(scan_from(start, spec_to_rtf(d)) == start);
}

proof fn lemma_scan_shift(st: BraceScan, s: Seq<char>, delta: int)
    ensures
        scan_from(BraceScan { depth: st.depth + delta, ..st }, s).depth == scan_from(st, s).depth
            + delta,
        scan_from(BraceScan { depth: st.depth + delta, ..st }, s).escaped == scan_from(st, s).escaped,
    decreases s.len(),
{
    if s.len() > 0 {
        lemma_scan_shift(st, s.drop_last(), delta);
    }
}

/// Once the depth has gone below zero it is remembered; before that the depth is not
/// negative.
proof fn lemma_scan_dips(st: BraceScan, s: Seq<char>)
    ensures
        st.dipped ==> scan_from(st, s).dipped,
        st.depth >= 0 || st.dipped ==> scan_from(st, s).depth >= 0 || scan_from(st, s).dipped,
    decreases s.len(),
{
    if s.len() > 0 {
        lemma_scan_dips(st, s.drop_last());
    }
}

/// The RTF of every document is a single group: every proper non-empty prefix of it lies
/// inside the outermost `{ ... }`.
pub proof fn lemma_rtf_is_one_group(d: SpecDocument)
    ensures
        forall|k: int|
            0 < k < spec_to_rtf(d).len() ==> #[trigger] scan_from(
                BraceScan { depth: 0, escaped: false, dipped: false },
                spec_to_rtf(d).take(k),
            ).depth >= 1,
{
    lemma_rtf_inner_neutral(d);
    let inner = rtf_document_inner(rtf_body(d).1, rtf_body(d).0);
    let doc = spec_to_rtf(d);
    let start = BraceScan { depth: 0, escaped: false, dipped: false };
    let one = BraceScan { depth: 1, escaped: false, dipped: false };
    assert(scan_from(start, inner) == start);
    assert forall|k: int| 0 < k < doc.len() implies #[trigger] scan_from(start, doc.take(k)).depth
        >= 1 by {
        let pre = inner.take(k - 1);
        assert(doc.take(k) =~= seq!['{'] + pre);
        lemma_scan_concat(start, seq!['{'], pre);
        lemma_scan_one(start, '{');
        lemma_scan_shift(start, pre, 1);
        assert(inner =~= pre + inner.skip(k - 1));
        lemma_scan_concat(start, pre, inner.skip(k - 1));
        lemma_scan_dips(scan_from(start, pre), inner.skip(k - 1));
        lemma_scan_dips(start, pre);
    }
}

// ---------------------------------------------------------------------------
// The font and colour tables never repeat an entry
// ---------------------------------------------------------------------------

pub open spec fn distinct<A>(s: Seq<A>) -> bool {
    forall|i: int, j: int| 0 <= i < j < s.len() ==> s[i] != s[j]
}

pub open spec fn tables_distinct(t: RtfTables) -> bool {
    distinct(t.fonts) && distinct(t.colors)
}

/// A family's font index names that family, and registering it keeps the table free of
/// repeats.
pub proof fn lemma_font_slot(fonts: Seq<Seq<char>>, family: Seq<char>)
    requires
        distinct(fonts),
    ensures
        distinct(font_slot(fonts, family).1),
        0 <= font_slot(fonts, family).0 < font_slot(fonts, family).1.len(),
        font_slot(fonts, family).1[font_slot(fonts, family).0] == font_name(family),
        fonts.is_prefix_of(font_slot(fonts, family).1),
{
    lemma_first_index(fonts, font_name(family));
    let r = font_slot(fonts, family).1;
    assert forall|i: int, j: int| 0 <= i < j < r.len() implies r[i] != r[j] by {
        if j == fonts.len() {
            assert(r[i] == fonts[i]);
        }
    }
}

/// A colour's 1-based index names that colour, and registering it keeps the palette free
/// of repeats.
pub proof fn lemma_color_slot(colors: Seq<(u8, u8, u8)>, rgb: (u8, u8, u8))
    requires
        distinct(colors),
    ensures
        distinct(color_slot(colors, rgb).1),
        1 <= color_slot(colors, rgb).0 <= color_slot(colors, rgb).1.len(),
        color_slot(colors, rgb).1[color_slot(colors, rgb).0 - 1] == rgb,
        colors.is_prefix_of(color_slot(colors, rgb).1),
{
    lemma_first_index(colors, rgb);
    let r = color_slot(colors, rgb).1;
    assert forall|i: int, j: int| 0 <= i < j < r.len() implies r[i] != r[j] by {
        if j == colors.len() {
            assert(r[i] == colors[i]);
        }
    }
}

proof fn lemma_emit_each_keeps_distinct<A>(
    xs: Seq<A>,
    t: RtfTables,
    f: spec_fn(A, RtfTables) -> (Seq<char>, RtfTables),
)
    requires
        tables_distinct(t),
        forall|x: A, u: RtfTables| tables_distinct(u) ==> #[trigger] tables_distinct(f(x, u).1),
    ensures
        tables_distinct(emit_each(xs, t, f).1),
    decreases xs.len(),
{
    if xs.len() > 0 {
        lemma_emit_each_keeps_distinct(xs.drop_last(), t, f);
        let t1 = emit_each(xs.drop_last(), t, f).1;
        assert(tables_distinct(f(xs.last(), t1).1));
    }
}

proof fn lemma_text_run_keeps_distinct(text: Seq<char>, style: SpecTextStyle, t: RtfTables)
    requires
        tables_distinct(t),
    ensures
        tables_distinct(rtf_text_run(text, style, t).1),
{
    if text.len() > 0 {
        lemma_font_slot(t.fonts, style.font_family);
        lemma_color_slot(t.colors, rgb_of(style.color));
        let colors1 = color_slot(t.colors, rgb_of(style.color)).1;
        lemma_color_slot(colors1, rgb_of(style.background_color));
    }
}

proof fn lemma_runs_keep_distinct(rs: Seq<SpecInline>, t: RtfTables)
    requires
        tables_distinct(t),
    ensures
        tables_distinct(rtf_runs(rs, t).1),
{
    assert forall|x: SpecInline, u: RtfTables| tables_distinct(u) implies #[trigger] tables_distinct(
        run_step()(x, u).1,
    ) by {
        match x {
            SpecInline::Text { text, style } => lemma_text_run_keeps_distinct(text, style, u),
            _ => {},
        }
    }
    lemma_emit_each_keeps_distinct(rs, t, run_step());
}

proof fn lemma_flat_table_keeps_distinct(tb: SpecTable, t: RtfTables)
    requires
        tables_distinct(t),
    ensures
        tables_distinct(rtf_flat_table(tb, t).1),
{
    assert forall|b: SpecBlock, u: RtfTables| tables_distinct(u) implies #[trigger] tables_distinct(
        flat_block_step()(b, u).1,
    ) by {
        match b {
            SpecBlock::Paragraph(p) => lemma_runs_keep_distinct(p.runs, u),
            _ => {},
        }
    }
    assert forall|c: SpecCell, u: RtfTables| tables_distinct(u) implies #[trigger] tables_distinct(
        flat_cell_step()(c, u).1,
    ) by {
        lemma_emit_each_keeps_distinct(c.content, u, flat_block_step());
    }
    assert forall|r: SpecRow, u: RtfTables| tables_distinct(u) implies #[trigger] tables_distinct(
        flat_row_step()(r, u).1,
    ) by {
        lemma_emit_each_keeps_distinct(r.cells, u, flat_cell_step());
    }
    lemma_emit_each_keeps_distinct(tb.rows, t, flat_row_step());
}

proof fn lemma_cell_defs_keep_distinct(cs: Seq<SpecCell>, total: int, t: RtfTables)
    requires
        tables_distinct(t),
    ensures
        tables_distinct(rtf_cell_defs(cs, total, t).1),
    decreases cs.len(),
{
    if cs.len() > 0 {
        lemma_cell_defs_keep_distinct(cs.drop_last(), total, t);
        let t1 = rtf_cell_defs(cs.drop_last(), total, t).1;
        lemma_color_slot(t1.colors, rgb_of(cs.last().border_color));
    }
}

proof fn lemma_table_keeps_distinct(tb: SpecTable, t: RtfTables)
    requires
        tables_distinct(t),
    ensures
        tables_distinct(rtf_table(tb, t).1),
{
    assert forall|b: SpecBlock, u: RtfTables| tables_distinct(u) implies #[trigger] tables_distinct(
        cell_block_step()(b, u).1,
    ) by {
        match b {
            SpecBlock::Paragraph(p) => lemma_runs_keep_distinct(p.runs, u),
            SpecBlock::Table(inner) => lemma_flat_table_keeps_distinct(inner, u),
            SpecBlock::PageBreak => {},
        }
    }
    assert forall|c: SpecCell, u: RtfTables| tables_distinct(u) implies #[trigger] tables_distinct(
        cell_body_step()(c, u).1,
    ) by {
        lemma_emit_each_keeps_distinct(c.content, u, cell_block_step());
    }
    assert forall|r: SpecRow, u: RtfTables| tables_distinct(u) implies #[trigger] tables_distinct(
        row_step()(r, u).1,
    ) by {
        lemma_cell_defs_keep_distinct(r.cells, rtf_row_total(r.cells), u);
        let t1 = rtf_cell_defs(r.cells, rtf_row_total(r.cells), u).1;
        lemma_emit_each_keeps_distinct(r.cells, t1, cell_body_step());
    }
    lemma_emit_each_keeps_distinct(tb.rows, t, row_step());
}

proof fn lemma_blocks_keep_distinct(bs: Seq<SpecBlock>, t: RtfTables)
    requires
        tables_distinct(t),
    ensures
        tables_distinct(rtf_blocks(bs, t).1),
{
    assert forall|b: SpecBlock, u: RtfTables| tables_distinct(u) implies #[trigger] tables_distinct(
        block_step()(b, u).1,
    ) by {
        match b {
            SpecBlock::Paragraph(p) => {
                let t1 = match p.list {
                    Some(l) => RtfTables {
                        fonts: u.fonts,
                        colors: u.colors,
                        counters: rtf_marker(l, u.counters).1,
                    },
                    None => u,
                };
                lemma_runs_keep_distinct(p.runs, t1);
            },
            SpecBlock::Table(tb) => lemma_table_keeps_distinct(tb, u),
            SpecBlock::PageBreak => {},
        }
    }
    lemma_emit_each_keeps_distinct(bs, t, block_step());
}

/// In the RTF of every document each font family appears once in the font table and each
/// colour once in the colour table: a family or colour used again reuses its index.
pub proof fn lemma_rtf_tables_distinct(d: SpecDocument)
    ensures
        tables_distinct(rtf_body(d).1),
{
    let (h, t1) = rtf_blocks(d.header, initial_tables());
    let (b, t2) = rtf_blocks(d.body, t1);
    lemma_blocks_keep_distinct(d.header, initial_tables());
    lemma_blocks_keep_distinct(d.body, t1);
    lemma_blocks_keep_distinct(d.footer, t2);
}

} // verus!
