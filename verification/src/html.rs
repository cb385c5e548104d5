//! HTML renderer: the [`Document`] model as self-contained HTML with inline CSS and
//! `data:` image URIs.
//!
//! Paragraph alignment, indent, spacing and line height; run font, weight, style,
//! decoration and colour; table borders driven by the `borderSpec` bits with the
//! `borderColor = 0` opaque rule; images; and list markers. List markers are written as
//! text (not as browser `<ol>`), since several marker types have no CSS equivalent and
//! numbering is kept per list id. Measurements are written in points.

use vstd::prelude::*;
use crate::color::{border_css_hex, css_hex, spec_hex_rgb, spec_rgba};
use crate::model::{
    Alignment, BlockElement, Document, ImageRun, InlineElement, ListProperties, ListType,
    PageFormat, Paragraph, SpecBlock, SpecCell, SpecDocument, SpecInline, SpecList, SpecParagraph,
    SpecRow, SpecTable, SpecTextStyle, Table, TableCell, TableRow, TextStyle, VerticalAlignment,
    lemma_view_blocks, lemma_view_cells, lemma_view_rows, view_block, view_blocks, view_cell,
    opt_str_view, view_cells, view_row, view_rows, view_table,
};
use crate::num::{num_text, push_num, round_div, round_div_exec, wide, Num};
use crate::text::{
    chars_of, contains_text, decimal, lemma_absent_by_char, lemma_contains_middle,
    lemma_contains_within, push_decimal,
    str_eq, strip_white_space, without_white_space,
};

verus! {

// ---------------------------------------------------------------------------
// Escaping
// ---------------------------------------------------------------------------

/// HTML text escaping of one character.
pub open spec fn escape_char(c: char) -> Seq<char> {
    if c == '&' {
        "&amp;"@
    } else if c == '<' {
        "&lt;"@
    } else if c == '>' {
        "&gt;"@
    } else {
        seq![c]
    }
}

/// Text escaped for HTML element content: `&`, `<` and `>` become entities; spaces and
/// newlines are kept (paragraphs are `white-space: pre-wrap`).
pub open spec fn spec_escape_text(s: Seq<char>) -> Seq<char>
    decreases s.len(),
{
    if s.len() == 0 {
        Seq::empty()
    } else {
        spec_escape_text(s.drop_last()) + escape_char(s.last())
    }
}

proof fn lemma_escape_text_push(s: Seq<char>, c: char)
    ensures
        spec_escape_text(s.push(c)) == spec_escape_text(s) + escape_char(c),
{
    assert(s.push(c).drop_last() =~= s);
}

/// Escaped text holds no `<` or `>`: whatever the text, it cannot open or close a tag.
pub proof fn lemma_escaped_text_has_no_tags(s: Seq<char>)
    ensures
        forall|i: int|
            0 <= i < spec_escape_text(s).len() ==> #[trigger] spec_escape_text(s)[i] != '<'
                && spec_escape_text(s)[i] != '>',
    decreases s.len(),
{
    reveal_strlit("&amp;");
    reveal_strlit("&lt;");
    reveal_strlit("&gt;");
    if s.len() > 0 {
        lemma_escaped_text_has_no_tags(s.drop_last());
        let a = spec_escape_text(s.drop_last());
        let e = escape_char(s.last());
        assert forall|i: int| 0 <= i < e.len() implies #[trigger] e[i] != '<' && e[i] != '>' by {}
        assert forall|i: int| 0 <= i < (a + e).len() implies #[trigger] (a + e)[i] != '<' && (a
            + e)[i] != '>' by {
            if i < a.len() {
                assert((a + e)[i] == a[i]);
            } else {
                assert((a + e)[i] == e[i - a.len()]);
            }
        }
    }
}

/// Appends the escaped text.
pub fn push_escaped_text(out: &mut String, s: &str)
    ensures
        final(out)@ == old(out)@ + spec_escape_text(s@),
{
    let v = chars_of(s);
    let mut k: usize = 0;
    assert(v@.take(0) =~= Seq::<char>::empty());
    while k < v.len()
        invariant
            k <= v.len(),
            v@ == s@,
            out@ == old(out)@ + spec_escape_text(v@.take(k as int)),
        decreases v.len() - k,
    {
        let c = v[k];
        proof {
            assert(v@.take(k + 1) =~= v@.take(k as int).push(c));
            lemma_escape_text_push(v@.take(k as int), c);
        }
        if c == '&' {
            out.append("&amp;");
        } else if c == '<' {
            out.append("&lt;");
        } else if c == '>' {
            out.append("&gt;");
        } else {
            out.push(c);
        }
        assert(out@ =~= old(out)@ + spec_escape_text(v@.take(k + 1)));
        k = k + 1;
    }
    assert(v@.take(v.len() as int) =~= v@);
}

/// Escape text for HTML element content.
pub fn escape_text(s: &str) -> (r: String)
    ensures
        r@ == spec_escape_text(s@),
{
    let mut out = String::new();
    push_escaped_text(&mut out, s);
    out
}

/// CSS escaping of one character of a font name: backslash and single quote are
/// escaped with a backslash, and a double quote becomes the hex escape `\22 `, so
/// the value can close neither its own quotes nor the `style="..."` attribute.
pub open spec fn css_escape_char(c: char) -> Seq<char> {
    if c == '\\' {
        seq!['\\', '\\']
    } else if c == '\'' {
        seq!['\\', '\'']
    } else if c == '"' {
        seq!['\\', '2', '2', ' ']
    } else {
        seq![c]
    }
}

pub open spec fn css_escape(s: Seq<char>) -> Seq<char>
    decreases s.len(),
{
    if s.len() == 0 {
        Seq::empty()
    } else {
        css_escape(s.drop_last()) + css_escape_char(s.last())
    }
}

/// A CSS `font-family` value, single-quoted so it nests inside the double-quoted
/// `style="..."` attribute without closing it; quotes of both kinds and
/// backslashes in the name are escaped.
pub open spec fn spec_css_font_family(family: Seq<char>) -> Seq<char> {
    seq!['\''] + css_escape(family) + seq!['\'']
}

/// A font-family value holds no double quote, whatever the family name: it cannot
/// close the double-quoted `style="..."` attribute it stands in.
pub proof fn lemma_font_family_has_no_double_quote(family: Seq<char>)
    ensures
        forall|i: int|
            0 <= i < spec_css_font_family(family).len() ==> #[trigger] spec_css_font_family(
                family,
            )[i] != '"',
{
    lemma_css_escape_has_no_double_quote(family);
    let a = seq!['\''];
    let b = css_escape(family);
    assert forall|i: int| 0 <= i < (a + b + a).len() implies #[trigger] (a + b + a)[i] != '"' by {
        if i < 1 {
            assert((a + b + a)[i] == a[i]);
        } else if i < 1 + b.len() {
            assert((a + b + a)[i] == b[i - 1]);
        } else {
            assert((a + b + a)[i] == a[i - 1 - b.len()]);
        }
    }
}

proof fn lemma_css_escape_has_no_double_quote(s: Seq<char>)
    ensures
        forall|i: int| 0 <= i < css_escape(s).len() ==> #[trigger] css_escape(s)[i] != '"',
    decreases s.len(),
{
    if s.len() > 0 {
        lemma_css_escape_has_no_double_quote(s.drop_last());
        let a = css_escape(s.drop_last());
        let e = css_escape_char(s.last());
        assert forall|i: int| 0 <= i < e.len() implies #[trigger] e[i] != '"' by {}
        assert forall|i: int| 0 <= i < (a + e).len() implies #[trigger] (a + e)[i] != '"' by {
            if i < a.len() {
                assert((a + e)[i] == a[i]);
            } else {
                assert((a + e)[i] == e[i - a.len()]);
            }
        }
    }
}

pub fn css_font_family(family: &str) -> (r: String)
    ensures
        r@ == spec_css_font_family(family@),
{
    let v = chars_of(family);
    let mut out = String::new();
    out.push('\'');
    let mut k: usize = 0;
    assert(v@.take(0) =~= Seq::<char>::empty());
    while k < v.len()
        invariant
            k <= v.len(),
            v@ == family@,
            out@ == seq!['\''] + css_escape(v@.take(k as int)),
        decreases v.len() - k,
    {
        let c = v[k];
        assert(v@.take(k + 1).drop_last() =~= v@.take(k as int));
        if c == '\\' {
            out.push('\\');
            out.push('\\');
        } else if c == '\'' {
            out.push('\\');
            out.push('\'');
        } else if c == '"' {
            out.push('\\');
            out.push('2');
            out.push('2');
            out.push(' ');
        } else {
            out.push(c);
        }
        assert(out@ =~= seq!['\''] + css_escape(v@.take(k + 1)));
        k = k + 1;
    }
    assert(v@.take(v.len() as int) =~= v@);
    out.push('\'');
    assert(out@ =~= spec_css_font_family(family@));
    out
}

// ---------------------------------------------------------------------------
// List markers
// ---------------------------------------------------------------------------

/// The value of entry `t` of the Roman numeral table (largest first).
pub open spec fn roman_value(t: int) -> nat {
    if t == 0 { 1000 } else if t == 1 { 900 } else if t == 2 { 500 } else if t == 3 { 400 }
    else if t == 4 { 100 } else if t == 5 { 90 } else if t == 6 { 50 } else if t == 7 { 40 }
    else if t == 8 { 10 } else if t == 9 { 9 } else if t == 10 { 5 } else if t == 11 { 4 }
    else { 1 }
}

/// The lower-case symbol of entry `t` of the Roman numeral table.
pub open spec fn roman_symbol(t: int) -> Seq<char> {
    if t == 0 { "m"@ } else if t == 1 { "cm"@ } else if t == 2 { "d"@ } else if t == 3 { "cd"@ }
    else if t == 4 { "c"@ } else if t == 5 { "xc"@ } else if t == 6 { "l"@ } else if t == 7 { "xl"@ }
    else if t == 8 { "x"@ } else if t == 9 { "ix"@ } else if t == 10 { "v"@ } else if t == 11 { "iv"@ }
    else { "i"@ }
}

/// The greedy Roman numeral of `n` using the table from entry `t` on.
pub open spec fn roman_from(n: nat, t: int) -> Seq<char>
    decreases n, 13 - t,
{
    if t >= 13 || t < 0 {
        Seq::empty()
    } else if n >= roman_value(t) {
        roman_symbol(t) + roman_from((n - roman_value(t)) as nat, t)
    } else {
        roman_from(n, t + 1)
    }
}

/// Lower-case Roman numeral of `n` (empty for 0).
pub open spec fn spec_roman(n: nat) -> Seq<char> {
    roman_from(n, 0)
}

/// `k` copies of `c`.
pub open spec fn repeat_char(c: char, k: nat) -> Seq<char> {
    Seq::new(k, |_i: int| c)
}

/// The standard Roman form of one decimal digit `d`, written with the symbols for one,
/// five and ten of its decade: `I II III IV V VI VII VIII IX` for the units.
pub open spec fn roman_digit(d: nat, one: char, five: char, ten: char) -> Seq<char> {
    if d == 9 {
        seq![one, ten]
    } else if d >= 5 {
        seq![five] + repeat_char(one, (d - 5) as nat)
    } else if d == 4 {
        seq![one, five]
    } else {
        repeat_char(one, d)
    }
}

/// The standard (subtractive) Roman numeral of `n`, digit by digit: one `m` per
/// thousand, then the hundreds, tens and units digits.
pub open spec fn roman_by_digits(n: nat) -> Seq<char> {
    repeat_char('m', n / 1000) + roman_digit((n % 1000) / 100, 'c', 'd', 'm') + roman_digit(
        (n % 100) / 10,
        'x',
        'l',
        'c',
    ) + roman_digit(n % 10, 'i', 'v', 'x')
}

proof fn lemma_roman_symbols()
    ensures
        roman_symbol(0) == seq!['m'],
        roman_symbol(1) == seq!['c', 'm'],
        roman_symbol(2) == seq!['d'],
        roman_symbol(3) == seq!['c', 'd'],
        roman_symbol(4) == seq!['c'],
        roman_symbol(5) == seq!['x', 'c'],
        roman_symbol(6) == seq!['l'],
        roman_symbol(7) == seq!['x', 'l'],
        roman_symbol(8) == seq!['x'],
        roman_symbol(9) == seq!['i', 'x'],
        roman_symbol(10) == seq!['v'],
        roman_symbol(11) == seq!['i', 'v'],
        roman_symbol(12) == seq!['i'],
{
    reveal_strlit("m");
    reveal_strlit("cm");
    reveal_strlit("d");
    reveal_strlit("cd");
    reveal_strlit("c");
    reveal_strlit("xc");
    reveal_strlit("l");
    reveal_strlit("xl");
    reveal_strlit("x");
    reveal_strlit("ix");
    reveal_strlit("v");
    reveal_strlit("iv");
    reveal_strlit("i");
    assert(roman_symbol(0) =~= seq!['m']);
    assert(roman_symbol(1) =~= seq!['c', 'm']);
    assert(roman_symbol(2) =~= seq!['d']);
    assert(roman_symbol(3) =~= seq!['c', 'd']);
    assert(roman_symbol(4) =~= seq!['c']);
    assert(roman_symbol(5) =~= seq!['x', 'c']);
    assert(roman_symbol(6) =~= seq!['l']);
    assert(roman_symbol(7) =~= seq!['x', 'l']);
    assert(roman_symbol(8) =~= seq!['x']);
    assert(roman_symbol(9) =~= seq!['i', 'x']);
    assert(roman_symbol(10) =~= seq!['v']);
    assert(roman_symbol(11) =~= seq!['i', 'v']);
    assert(roman_symbol(12) =~= seq!['i']);
}

/// Entry `t`, worth `u` and written `c`, repeated while it fits.
proof fn lemma_roman_repeat(n: nat, t: int, u: nat, c: char)
    requires
        0 <= t < 13,
        roman_value(t) == u,
        u > 0,
        roman_symbol(t) == seq![c],
    ensures
        roman_from(n, t) == repeat_char(c, n / u) + roman_from(n % u, t + 1),
    decreases n,
{
    if n >= u {
        lemma_roman_repeat((n - u) as nat, t, u, c);
        let q = ((n - u) as nat) / u;
        let r = ((n - u) as nat) % u;
        vstd::arithmetic::div_mod::lemma_fundamental_div_mod((n - u) as int, u as int);
        assert((q + 1) * u == u * q + u) by (nonlinear_arith);
        vstd::arithmetic::div_mod::lemma_fundamental_div_mod_converse(
            n as int,
            u as int,
            q + 1 as int,
            r as int,
        );
        assert(seq![c] + repeat_char(c, q) =~= repeat_char(c, (q + 1) as nat));
        assert(roman_from(n, t) == roman_symbol(t) + roman_from((n - u) as nat, t));
    } else {
        vstd::arithmetic::div_mod::lemma_fundamental_div_mod_converse(n as int, u as int, 0, n as int);
        assert(repeat_char(c, 0) =~= Seq::<char>::empty());
        assert(roman_from(n, t) == roman_from(n, t + 1));
    }
}

/// One decade of the table (entries worth `9u`, `5u`, `4u`, `u`) writes the digit
/// `n / u` in standard form and leaves `n % u`.
proof fn lemma_roman_decade(n: nat, t: int, u: nat, one: char, five: char, ten: char)
    requires
        0 <= t,
        t + 4 <= 13,
        u > 0,
        n < 10 * u,
        roman_value(t) == 9 * u,
        roman_value(t + 1) == 5 * u,
        roman_value(t + 2) == 4 * u,
        roman_value(t + 3) == u,
        roman_symbol(t) == seq![one, ten],
        roman_symbol(t + 1) == seq![five],
        roman_symbol(t + 2) == seq![one, five],
        roman_symbol(t + 3) == seq![one],
    ensures
        roman_from(n, t) == roman_digit(n / u, one, five, ten) + roman_from(n % u, t + 4),
{
    let d = n / u;
    let r = n % u;
    vstd::arithmetic::div_mod::lemma_fundamental_div_mod(n as int, u as int);
    assert(n == d * u + r);
    assert(d < 10) by (nonlinear_arith)
        requires
            n == d * u + r,
            n < 10 * u,
            r >= 0,
            u > 0,
    ;
    lemma_roman_repeat(r, t + 3, u, one);
    vstd::arithmetic::div_mod::lemma_fundamental_div_mod_converse(r as int, u as int, 0, r as int);
    assert(repeat_char(one, 0) =~= Seq::<char>::empty());
    assert(roman_from(r, t + 3) == roman_from(r, t + 4));
    assert(r < u);
    if d == 9 {
        assert(n == 9 * u + r);
        assert(roman_from(n, t) == roman_symbol(t) + roman_from(r, t));
        assert(roman_from(r, t) == roman_from(r, t + 1));
        assert(roman_from(r, t + 1) == roman_from(r, t + 2));
        assert(roman_from(r, t + 2) == roman_from(r, t + 3));
    } else if d >= 5 {
        assert(n >= 5 * u && n < 9 * u && n - 5 * u < 4 * u && n - 5 * u == (d - 5) * u + r)
            by (nonlinear_arith)
            requires
                n == d * u + r,
                5 <= d <= 8,
                0 <= r < u,
        ;
        let m = (n - 5 * u) as nat;
        assert(roman_from(n, t) == roman_from(n, t + 1));
        assert(roman_from(n, t + 1) == roman_symbol(t + 1) + roman_from(m, t + 1));
        assert(roman_from(m, t + 1) == roman_from(m, t + 2));
        assert(roman_from(m, t + 2) == roman_from(m, t + 3));
        lemma_roman_repeat(m, t + 3, u, one);
        vstd::arithmetic::div_mod::lemma_fundamental_div_mod_converse(
            m as int,
            u as int,
            (d - 5) as int,
            r as int,
        );
    } else if d == 4 {
        assert(n >= 4 * u && n < 5 * u && n - 4 * u == r) by (nonlinear_arith)
            requires
                n == d * u + r,
                d == 4,
                0 <= r < u,
        ;
        let m = (n - 4 * u) as nat;
        assert(roman_from(n, t) == roman_from(n, t + 1));
        assert(roman_from(n, t + 1) == roman_from(n, t + 2));
        assert(roman_from(n, t + 2) == roman_symbol(t + 2) + roman_from(m, t + 2));
        assert(roman_from(m, t + 2) == roman_from(m, t + 3));
    } else {
        assert(n < 4 * u) by (nonlinear_arith)
            requires
                n == d * u + r,
                d <= 3,
                0 <= r < u,
        ;
        assert(roman_from(n, t) == roman_from(n, t + 1));
        assert(roman_from(n, t + 1) == roman_from(n, t + 2));
        assert(roman_from(n, t + 2) == roman_from(n, t + 3));
        lemma_roman_repeat(n, t + 3, u, one);
    }
}

/// Every Roman numeral the markers use is the standard subtractive form of its number,
/// written digit by digit (`4` is `iv`, `5` is `v`, `8` is `viii`, `1994` is
/// `mcmxciv`).
pub proof fn lemma_roman_is_standard_form(n: nat)
    ensures
        spec_roman(n) == roman_by_digits(n),
{
    lemma_roman_symbols();
    lemma_roman_repeat(n, 0, 1000, 'm');
    let h = n % 1000;
    lemma_roman_decade(h, 1, 100, 'c', 'd', 'm');
    vstd::arithmetic::div_mod::lemma_mod_mod(n as int, 100, 10);
    let te = h % 100;
    assert(te == n % 100);
    lemma_roman_decade(te, 5, 10, 'x', 'l', 'c');
    vstd::arithmetic::div_mod::lemma_mod_mod(n as int, 10, 10);
    let o = te % 10;
    assert(o == n % 10);
    lemma_roman_decade(o, 9, 1, 'i', 'v', 'x');
    assert(o % 1 == 0 && o / 1 == o);
    assert(roman_from(0, 13) == Seq::<char>::empty());
    assert(spec_roman(n) =~= roman_by_digits(n));
}

/// ASCII upper-casing (`str::to_uppercase` on the ASCII letters these markers use).
pub open spec fn upper_char(c: char) -> char {
    if 'a' <= c && c <= 'z' {
        ((c as u32) - 32) as char
    } else {
        c
    }
}

pub open spec fn upper(s: Seq<char>) -> Seq<char> {
    s.map_values(|c: char| upper_char(c))
}

fn push_roman_symbol(out: &mut String, t: usize)
    requires
        t < 13,
    ensures
        final(out)@ == old(out)@ + roman_symbol(t as int),
{
    let s = if t == 0 { "m" } else if t == 1 { "cm" } else if t == 2 { "d" } else if t == 3 {
        "cd"
    } else if t == 4 { "c" } else if t == 5 { "xc" } else if t == 6 { "l" } else if t == 7 {
        "xl"
    } else if t == 8 { "x" } else if t == 9 { "ix" } else if t == 10 { "v" } else if t == 11 {
        "iv"
    } else { "i" };
    out.append(s);
}

fn roman_value_exec(t: usize) -> (r: u64)
    requires
        t < 13,
    ensures
        r == roman_value(t as int),
{
    if t == 0 { 1000 } else if t == 1 { 900 } else if t == 2 { 500 } else if t == 3 { 400 }
    else if t == 4 { 100 } else if t == 5 { 90 } else if t == 6 { 50 } else if t == 7 { 40 }
    else if t == 8 { 10 } else if t == 9 { 9 } else if t == 10 { 5 } else if t == 11 { 4 }
    else { 1 }
}

/// Lower-case ASCII letters made upper-case.
fn to_upper_ascii(s: String) -> (r: String)
    ensures
        r@ == upper(s@),
{
    let v = chars_of(s.as_str());
    let mut out = String::new();
    let mut k: usize = 0;
    while k < v.len()
        invariant
            k <= v.len(),
            v@ == s@,
            out@ == upper(v@.take(k as int)),
        decreases v.len() - k,
    {
        let c = v[k];
        if 'a' <= c && c <= 'z' {
            out.push(((c as u32) - 32) as u8 as char);
        } else {
            out.push(c);
        }
        k = k + 1;
        assert(out@ =~= upper(v@.take(k as int)));
    }
    assert(v@.take(v.len() as int) =~= v@);
    out
}

/// Roman numeral of `n` (upper- or lower-case; empty for 0).
pub fn to_roman(n: u64, upper_case: bool) -> (r: String)
    ensures
        r@ == if upper_case { upper(spec_roman(n as nat)) } else { spec_roman(n as nat) },
{
    let mut s = String::new();
    let mut m = n;
    let mut t: usize = 0;
    while t < 13
        invariant
            t <= 13,
            s@ + roman_from(m as nat, t as int) == spec_roman(n as nat),
        decreases 13 - t,
    {
        let v = roman_value_exec(t);
        while m >= v
            invariant
                t < 13,
                v == roman_value(t as int),
                s@ + roman_from(m as nat, t as int) == spec_roman(n as nat),
            decreases m,
        {
            push_roman_symbol(&mut s, t);
            m = m - v;
            assert(s@ + roman_from(m as nat, t as int) =~= spec_roman(n as nat));
        }
        t = t + 1;
    }
    assert(s@ =~= spec_roman(n as nat));
    if upper_case {
        to_upper_ascii(s)
    } else {
        s
    }
}

/// Spreadsheet-style letters: 1 is `a`, 26 is `z`, 27 is `aa` (empty for 0).
pub open spec fn spec_alpha(n: nat) -> Seq<char>
    decreases n,
{
    if n == 0 {
        Seq::empty()
    } else {
        spec_alpha(((n - 1) / 26) as nat).push((((n - 1) % 26) + 97) as char)
    }
}

pub fn to_alpha(n: u64, upper_case: bool) -> (r: String)
    ensures
        r@ == if upper_case { upper(spec_alpha(n as nat)) } else { spec_alpha(n as nat) },
{
    let mut rev: Vec<char> = Vec::new();
    let mut m = n;
    while m > 0
        invariant
            spec_alpha(n as nat) == spec_alpha(m as nat) + rev@.reverse(),
        decreases m,
    {
        let d = ((m - 1) % 26) as u8;
        let c = (d + 97) as char;
        let ghost before = rev@;
        rev.push(c);
        m = (m - 1) / 26;
        assert(rev@.reverse() =~= seq![c] + before.reverse());
    }
    let mut s = String::new();
    let mut k: usize = rev.len();
    assert(spec_alpha(0) =~= Seq::<char>::empty());
    while k > 0
        invariant
            k <= rev.len(),
            s@ == rev@.skip(k as int).reverse(),
        decreases k,
    {
        k = k - 1;
        s.push(rev[k]);
        assert(s@ =~= rev@.skip(k as int).reverse());
    }
    assert(rev@.skip(0) =~= rev@);
    assert(s@ =~= spec_alpha(n as nat));
    if upper_case {
        to_upper_ascii(s)
    } else {
        s
    }
}

/// The marker text of a numbered list item `n` for a `NumberType` (UYAP's marker
/// styles; a missing or unknown type is "n.").
pub open spec fn spec_number_marker(number_type: Option<Seq<char>>, n: nat) -> Seq<char> {
    let t = match number_type {
        Some(s) => s,
        None => "NUMBER_TYPE_NUMBER_DOT"@,
    };
    if t == "NUMBER_TYPE_NUMBER_DOT"@ || t == "NUMBER_TYPE_NUMBER_DOT_2"@ || t
        == "NUMBER_TYPE_NUMBER_DOT_3"@ {
        decimal(n) + "."@
    } else if t == "NUMBER_TYPE_NUMBER_PARANTHESE"@ || t == "NUMBER_TYPE_NUMBER_PARANTHESE_2"@ {
        decimal(n) + ")"@
    } else if t == "NUMBER_TYPE_NUMBER_TRE"@ {
        decimal(n)
    } else if t == "NUMBER_TYPE_ROMAN_BIG_DOT"@ {
        upper(spec_roman(n)) + "."@
    } else if t == "NUMBER_TYPE_ROMAN_SMALL_DOT"@ {
        spec_roman(n) + "."@
    } else if t == "NUMBER_TYPE_CHAR_BIG_DOT"@ || t == "NUMBER_TYPE_CHAR_BIG_2"@ {
        upper(spec_alpha(n)) + "."@
    } else if t == "NUMBER_TYPE_CHAR_SMALL_DOT"@ {
        spec_alpha(n) + "."@
    } else if t == "NUMBER_TYPE_CHAR_SMALL_PARANTHESE"@ {
        spec_alpha(n) + ")"@
    } else {
        decimal(n) + "."@
    }
}

pub fn number_marker(number_type: Option<&str>, n: u64) -> (r: String)
    ensures
        r@ == spec_number_marker(
            match number_type {
                Some(s) => Some(s@),
                None => None,
            },
            n as nat,
        ),
{
    let t = match number_type {
        Some(s) => s,
        None => "NUMBER_TYPE_NUMBER_DOT",
    };
    let mut out = String::new();
    if str_eq(t, "NUMBER_TYPE_NUMBER_DOT") || str_eq(t, "NUMBER_TYPE_NUMBER_DOT_2") || str_eq(
        t,
        "NUMBER_TYPE_NUMBER_DOT_3",
    ) {
        push_decimal(&mut out, n as u128);
        out.append(".");
    } else if str_eq(t, "NUMBER_TYPE_NUMBER_PARANTHESE") || str_eq(
        t,
        "NUMBER_TYPE_NUMBER_PARANTHESE_2",
    ) {
        push_decimal(&mut out, n as u128);
        out.append(")");
    } else if str_eq(t, "NUMBER_TYPE_NUMBER_TRE") {
        push_decimal(&mut out, n as u128);
    } else if str_eq(t, "NUMBER_TYPE_ROMAN_BIG_DOT") {
        out = to_roman(n, true);
        out.append(".");
    } else if str_eq(t, "NUMBER_TYPE_ROMAN_SMALL_DOT") {
        out = to_roman(n, false);
        out.append(".");
    } else if str_eq(t, "NUMBER_TYPE_CHAR_BIG_DOT") || str_eq(t, "NUMBER_TYPE_CHAR_BIG_2") {
        out = to_alpha(n, true);
        out.append(".");
    } else if str_eq(t, "NUMBER_TYPE_CHAR_SMALL_DOT") {
        out = to_alpha(n, false);
        out.append(".");
    } else if str_eq(t, "NUMBER_TYPE_CHAR_SMALL_PARANTHESE") {
        out = to_alpha(n, false);
        out.append(")");
    } else {
        push_decimal(&mut out, n as u128);
        out.append(".");
    }
    out
}

/// The bullet of a `BulletType` (a missing or unknown type is a round bullet).
pub open spec fn spec_bullet_glyph(bullet_type: Option<Seq<char>>) -> Seq<char> {
    let t = match bullet_type {
        Some(s) => s,
        None => "BULLET_TYPE_ELLIPSE"@,
    };
    if t == "BULLET_TYPE_RECTANGLE"@ {
        seq!['\u{25A0}']
    } else if t == "BULLET_TYPE_RECTANGLE_D"@ {
        seq!['\u{25A1}']
    } else if t == "BULLET_TYPE_DIAMOND"@ {
        seq!['\u{25C6}']
    } else if t == "BULLET_TYPE_DIAMOND_2"@ {
        seq!['\u{25C7}']
    } else if t == "BULLET_TYPE_ARROW"@ {
        seq!['\u{27A2}']
    } else if t == "BULLET_TYPE_TRIANGLE"@ {
        seq!['\u{25BA}']
    } else {
        seq!['\u{2022}']
    }
}

pub fn bullet_glyph(bullet_type: Option<&str>) -> (r: String)
    ensures
        r@ == spec_bullet_glyph(
            match bullet_type {
                Some(s) => Some(s@),
                None => None,
            },
        ),
{
    let t = match bullet_type {
        Some(s) => s,
        None => "BULLET_TYPE_ELLIPSE",
    };
    let g = if str_eq(t, "BULLET_TYPE_RECTANGLE") {
        '\u{25A0}'
    } else if str_eq(t, "BULLET_TYPE_RECTANGLE_D") {
        '\u{25A1}'
    } else if str_eq(t, "BULLET_TYPE_DIAMOND") {
        '\u{25C6}'
    } else if str_eq(t, "BULLET_TYPE_DIAMOND_2") {
        '\u{25C7}'
    } else if str_eq(t, "BULLET_TYPE_ARROW") {
        '\u{27A2}'
    } else if str_eq(t, "BULLET_TYPE_TRIANGLE") {
        '\u{25BA}'
    } else {
        '\u{2022}'
    };
    let mut out = String::new();
    out.push(g);
    assert(out@ =~= seq![g]);
    out
}

// ---------------------------------------------------------------------------
// Counters
// ---------------------------------------------------------------------------

/// Running item numbers per list id (`None` is the anonymous list): a list of
/// `(list id, last number)` pairs, one per id.
pub type Counters = Seq<(Option<i32>, u64)>;

pub open spec fn counter_index(c: Counters, id: Option<i32>) -> Option<int>
    decreases c.len(),
{
    if c.len() == 0 {
        None
    } else if c[0].0 == id {
        Some(0)
    } else {
        match counter_index(c.drop_first(), id) {
            Some(i) => Some(i + 1),
            None => None,
        }
    }
}

/// The next number of list `id` (numbering starts at 1; it stops growing at `u64::MAX`).
pub open spec fn next_number(c: Counters, id: Option<i32>) -> u64 {
    let cur = match counter_index(c, id) {
        Some(i) => c[i].1,
        None => 0,
    };
    if cur < u64::MAX { (cur + 1) as u64 } else { cur }
}

/// The counters after list `id` takes its next number.
pub open spec fn bumped(c: Counters, id: Option<i32>) -> Counters {
    match counter_index(c, id) {
        Some(i) => c.update(i, (id, next_number(c, id))),
        None => c.push((id, next_number(c, id))),
    }
}

proof fn lemma_counter_index_bounds(c: Counters, id: Option<i32>)
    ensures
        match counter_index(c, id) {
            Some(i) => 0 <= i < c.len() && c[i].0 == id,
            None => forall|j: int| 0 <= j < c.len() ==> c[j].0 != id,
        },
    decreases c.len(),
{
    if c.len() > 0 {
        lemma_counter_index_bounds(c.drop_first(), id);
        if c[0].0 != id {
            match counter_index(c.drop_first(), id) {
                Some(i) => {},
                None => {
                    assert forall|j: int| 0 <= j < c.len() implies c[j].0 != id by {
                        if j > 0 {
                            assert(c[j] == c.drop_first()[j - 1]);
                        }
                    }
                },
            }
        }
    }
}

proof fn lemma_counter_index_update(c: Counters, i: int, v: (Option<i32>, u64), id: Option<i32>)
    requires
        0 <= i < c.len(),
        c[i].0 == v.0,
    ensures
        counter_index(c.update(i, v), id) == counter_index(c, id),
    decreases c.len(),
{
    let d = c.update(i, v);
    if i > 0 {
        assert(d.drop_first() =~= c.drop_first().update(i - 1, v));
        lemma_counter_index_update(c.drop_first(), i - 1, v, id);
    } else {
        assert(d.drop_first() =~= c.drop_first());
    }
}

proof fn lemma_counter_index_push(c: Counters, x: (Option<i32>, u64), id: Option<i32>)
    ensures
        counter_index(c.push(x), id) == match counter_index(c, id) {
            Some(k) => Some(k),
            None => if x.0 == id {
                Some(c.len() as int)
            } else {
                None
            },
        },
    decreases c.len(),
{
    if c.len() > 0 {
        assert(c.push(x).drop_first() =~= c.drop_first().push(x));
        assert(c.push(x)[0] == c[0]);
        lemma_counter_index_push(c.drop_first(), x, id);
    } else {
        assert(c.push(x).drop_first() =~= Seq::<(Option<i32>, u64)>::empty());
        assert(counter_index(Seq::<(Option<i32>, u64)>::empty(), id) is None);
        assert(c.push(x)[0] == x);
    }
}

/// List numbering is kept per list id: every list starts at 1, an item of list `a` takes
/// the number after the one before it in `a`, and it leaves every other list's numbering
/// unchanged.
pub proof fn lemma_list_numbering_per_id(c: Counters, a: Option<i32>, b: Option<i32>)
    ensures
        next_number(Seq::empty(), a) == 1,
        next_number(c, a) < u64::MAX ==> next_number(bumped(c, a), a) == next_number(c, a) + 1,
        a != b ==> next_number(bumped(c, a), b) == next_number(c, b),
{
    lemma_counter_index_bounds(c, a);
    lemma_counter_index_bounds(c, b);
    let v = (a, next_number(c, a));
    match counter_index(c, a) {
        Some(i) => {
            lemma_counter_index_update(c, i, v, a);
            lemma_counter_index_update(c, i, v, b);
            lemma_counter_index_bounds(c.update(i, v), b);
        },
        None => {
            lemma_counter_index_push(c, v, a);
            lemma_counter_index_push(c, v, b);
            lemma_counter_index_bounds(c.push(v), b);
        },
    }
}

/// Takes the next number of list `id`.
pub fn bump_counter(counters: &mut Vec<(Option<i32>, u64)>, id: Option<i32>) -> (r: u64)
    ensures
        r == next_number(old(counters)@, id),
        final(counters)@ == bumped(old(counters)@, id),
{
    let ghost c = counters@;
    let mut i: usize = 0;
    assert(c.skip(0) =~= c);
    while i < counters.len()
        invariant
            i <= counters.len(),
            c == counters@,
            c == old(counters)@,
            counter_index(c, id) == match counter_index(c.skip(i as int), id) {
                Some(k) => Some(k + i),
                None => None,
            },
        decreases counters.len() - i,
    {
        assert(c.skip(i as int)[0] == c[i as int]);
        assert(c.skip(i as int).drop_first() =~= c.skip(i + 1));
        if counters[i].0 == id {
            assert(counter_index(c.skip(i as int), id) == Some(0int));
            assert(counter_index(c, id) == Some(i as int));
            let cur = counters[i].1;
            let next = if cur < u64::MAX { cur + 1 } else { cur };
            counters.set(i, (id, next));
            return next;
        }
        i = i + 1;
    }
    assert(c.skip(i as int) =~= Seq::<(Option<i32>, u64)>::empty());
    counters.push((id, 1));
    1
}

// ---------------------------------------------------------------------------
// Run styling and images
// ---------------------------------------------------------------------------

pub open spec fn text_decoration(underline: bool, strike: bool) -> Seq<char> {
    if underline && strike {
        "text-decoration:underline line-through;"@
    } else if underline {
        "text-decoration:underline;"@
    } else if strike {
        "text-decoration:line-through;"@
    } else {
        Seq::empty()
    }
}

/// The CSS decoration of a run names `underline` exactly when the run is underlined,
/// and `line-through` exactly when it is struck through.
pub proof fn lemma_text_decoration_names(underline: bool, strike: bool)
    ensures
        contains_text(text_decoration(underline, strike), "underline"@) == underline,
        contains_text(text_decoration(underline, strike), "line-through"@) == strike,
{
    reveal_strlit("underline");
    reveal_strlit("line-through");
    reveal_strlit("text-decoration:underline line-through;");
    reveal_strlit("text-decoration:underline;");
    reveal_strlit("text-decoration:line-through;");
    let d = text_decoration(underline, strike);
    let u = "underline"@;
    let l = "line-through"@;
    if underline && strike {
        assert(d.subrange(16, 16 + u.len() as int) =~= u);
        assert(d.subrange(26, 26 + l.len() as int) =~= l);
    } else if underline {
        assert(d.subrange(16, 16 + u.len() as int) =~= u);
        assert forall|j: int| 0 <= j && j + l.len() <= d.len() implies #[trigger] d[j + 10] != l[10] by {}
        lemma_absent_by_char(d, l, 10);
    } else if strike {
        assert(d.subrange(16, 16 + l.len() as int) =~= l);
        assert forall|j: int| 0 <= j && j + u.len() <= d.len() implies #[trigger] d[j + 0] != u[0] by {}
        lemma_absent_by_char(d, u, 0);
    }
}

pub open spec fn part_if(cond: bool, s: Seq<char>) -> Seq<char> {
    if cond {
        s
    } else {
        Seq::empty()
    }
}

/// The inline CSS of a run: family and size when set, weight, style, decoration, and
/// the colours only when they differ from black text on a white background.
pub open spec fn spec_span_style(s: SpecTextStyle) -> Seq<char> {
    part_if(s.font_family.len() > 0, "font-family:"@ + spec_css_font_family(s.font_family) + ";"@)
        + part_if(s.font_size.nanos > 0, "font-size:"@ + num_text(s.font_size.nanos as int) + "pt;"@)
        + part_if(s.bold, "font-weight:bold;"@) + part_if(s.italic, "font-style:italic;"@)
        + text_decoration(s.underline, s.strikethrough) + part_if(
        s.color != -16777216,
        "color:"@ + css_hex_of(s.color) + ";"@,
    ) + part_if(s.background_color != -1, "background-color:"@ + css_hex_of(s.background_color) + ";"@)
}

/// The third, fourth and fifth of seven pieces occur in their concatenation, and so
/// does any run of the fifth.
proof fn lemma_pieces_of_seven(
    p1: Seq<char>,
    p2: Seq<char>,
    p3: Seq<char>,
    p4: Seq<char>,
    p5: Seq<char>,
    p6: Seq<char>,
    p7: Seq<char>,
    t: Seq<char>,
)
    ensures
        contains_text(p1 + p2 + p3 + p4 + p5 + p6 + p7, p3),
        contains_text(p1 + p2 + p3 + p4 + p5 + p6 + p7, p4),
        contains_text(p5, t) ==> contains_text(p1 + p2 + p3 + p4 + p5 + p6 + p7, t),
{
    let st = p1 + p2 + p3 + p4 + p5 + p6 + p7;
    lemma_contains_middle(p1 + p2, p3, p4 + p5 + p6 + p7);
    assert(p1 + p2 + p3 + (p4 + p5 + p6 + p7) =~= st);
    lemma_contains_middle(p1 + p2 + p3, p4, p5 + p6 + p7);
    assert(p1 + p2 + p3 + p4 + (p5 + p6 + p7) =~= st);
    if contains_text(p5, t) {
        lemma_contains_within(p1 + p2 + p3 + p4, p5, p6 + p7, t);
        assert(p1 + p2 + p3 + p4 + p5 + (p6 + p7) =~= st);
    }
}

/// A run's span style shows its flags: `font-weight:bold;` for a bold run,
/// `font-style:italic;` for an italic one, and `underline` and `line-through` in its
/// decoration for an underlined and a struck-through one.
pub proof fn lemma_span_style_shows_flags(s: SpecTextStyle)
    ensures
        s.bold ==> contains_text(spec_span_style(s), "font-weight:bold;"@),
        s.italic ==> contains_text(spec_span_style(s), "font-style:italic;"@),
        s.underline ==> contains_text(spec_span_style(s), "underline"@),
        s.strikethrough ==> contains_text(spec_span_style(s), "line-through"@),
{
    let p1 = part_if(s.font_family.len() > 0, "font-family:"@ + spec_css_font_family(s.font_family) + ";"@);
    let p2 = part_if(s.font_size.nanos > 0, "font-size:"@ + num_text(s.font_size.nanos as int) + "pt;"@);
    let p3 = part_if(s.bold, "font-weight:bold;"@);
    let p4 = part_if(s.italic, "font-style:italic;"@);
    let p5 = text_decoration(s.underline, s.strikethrough);
    let p6 = part_if(s.color != -16777216, "color:"@ + css_hex_of(s.color) + ";"@);
    let p7 = part_if(s.background_color != -1, "background-color:"@ + css_hex_of(s.background_color) + ";"@);
    assert(spec_span_style(s) == p1 + p2 + p3 + p4 + p5 + p6 + p7);
    lemma_text_decoration_names(s.underline, s.strikethrough);
    lemma_pieces_of_seven(p1, p2, p3, p4, p5, p6, p7, "underline"@);
    lemma_pieces_of_seven(p1, p2, p3, p4, p5, p6, p7, "line-through"@);
}

/// The number a string of the letters `a` to `z` stands for in bijective base 26:
/// `a` is 1, `z` is 26, `aa` is 27.
pub open spec fn alpha_value(s: Seq<char>) -> int
    decreases s.len(),
{
    if s.len() == 0 {
        0
    } else {
        alpha_value(s.drop_last()) * 26 + (s.last() as int - 96)
    }
}

/// Every alphabetic marker is made of the letters `a` to `z` and stands for its
/// number in bijective base 26 (`1` is `a`, `26` is `z`, `27` is `aa`, `702` is `zz`).
pub proof fn lemma_alpha_is_bijective_base26(n: nat)
    ensures
        alpha_value(spec_alpha(n)) == n,
        forall|i: int| 0 <= i < spec_alpha(n).len() ==> 'a' <= #[trigger] spec_alpha(n)[i] <= 'z',
    decreases n,
{
    if n > 0 {
        let q = ((n - 1) / 26) as nat;
        let r = ((n - 1) % 26) as int;
        lemma_alpha_is_bijective_base26(q);
        vstd::arithmetic::div_mod::lemma_fundamental_div_mod((n - 1) as int, 26);
        let c = (r + 97) as char;
        let s = spec_alpha(n);
        assert(s == spec_alpha(q).push(c));
        assert(s.drop_last() =~= spec_alpha(q));
        assert(c as int == r + 97);
        assert forall|i: int| 0 <= i < s.len() implies 'a' <= #[trigger] s[i] <= 'z' by {
            if i < s.len() - 1 {
                assert(s[i] == spec_alpha(q)[i]);
            }
        }
    }
}

#[verifier::opaque]
pub open spec fn css_hex_of(v: i32) -> Seq<char> {
    spec_hex_rgb(spec_rgba(v).0, spec_rgba(v).1, spec_rgba(v).2)
}

fn push_font_part(out: &mut String, s: &TextStyle)
    ensures
        final(out)@ == old(out)@ + part_if(
            s@.font_family.len() > 0,
            "font-family:"@ + spec_css_font_family(s@.font_family) + ";"@,
        ) + part_if(s@.font_size.nanos > 0, "font-size:"@ + num_text(s@.font_size.nanos as int) + "pt;"@),
{
    let ghost o = out@;
    if !s.font_family.as_str().is_empty() {
        out.append("font-family:");
        let f = css_font_family(s.font_family.as_str());
        out.append(f.as_str());
        out.append(";");
    }
    let ghost o2 = out@;
    assert(o2 =~= o + part_if(
        s@.font_family.len() > 0,
        "font-family:"@ + spec_css_font_family(s@.font_family) + ";"@,
    ));
    if s.font_size.nanos > 0 {
        out.append("font-size:");
        push_num(out, s.font_size.nanos as i128);
        out.append("pt;");
    }
    assert(out@ =~= o2 + part_if(
        s@.font_size.nanos > 0,
        "font-size:"@ + num_text(s@.font_size.nanos as int) + "pt;"@,
    ));
}

fn push_face_part(out: &mut String, s: &TextStyle)
    ensures
        final(out)@ == old(out)@ + part_if(s@.bold, "font-weight:bold;"@) + part_if(
            s@.italic,
            "font-style:italic;"@,
        ) + text_decoration(s@.underline, s@.strikethrough),
{
    let ghost o = out@;
    if s.bold {
        out.append("font-weight:bold;");
    }
    let ghost o1 = out@;
    assert(o1 =~= o + part_if(s@.bold, "font-weight:bold;"@));
    if s.italic {
        out.append("font-style:italic;");
    }
    let ghost o2 = out@;
    assert(o2 =~= o1 + part_if(s@.italic, "font-style:italic;"@));
    if s.underline && s.strikethrough {
        out.append("text-decoration:underline line-through;");
    } else if s.underline {
        out.append("text-decoration:underline;");
    } else if s.strikethrough {
        out.append("text-decoration:line-through;");
    }
    assert(out@ =~= o2 + text_decoration(s@.underline, s@.strikethrough));
}

fn push_color_part(out: &mut String, s: &TextStyle)
    ensures
        final(out)@ == old(out)@ + part_if(s@.color != -16777216, "color:"@ + css_hex_of(s@.color) + ";"@)
            + part_if(
            s@.background_color != -1,
            "background-color:"@ + css_hex_of(s@.background_color) + ";"@,
        ),
{
    let ghost o = out@;
    if s.color != -16777216 {
        out.append("color:");
        let h = css_hex(s.color);
        proof {
            reveal(css_hex_of);
        }
        out.append(h.as_str());
        out.append(";");
    }
    let ghost o1 = out@;
    assert(o1 =~= o + part_if(s@.color != -16777216, "color:"@ + css_hex_of(s@.color) + ";"@));
    if s.background_color != -1 {
        out.append("background-color:");
        let h = css_hex(s.background_color);
        proof {
            reveal(css_hex_of);
        }
        out.append(h.as_str());
        out.append(";");
    }
    assert(out@ =~= o1 + part_if(
        s@.background_color != -1,
        "background-color:"@ + css_hex_of(s@.background_color) + ";"@,
    ));
}

pub fn span_style(s: &TextStyle) -> (r: String)
    ensures
        r@ == spec_span_style(s@),
{
    let mut style = String::new();
    push_font_part(&mut style, s);
    push_face_part(&mut style, s);
    push_color_part(&mut style, s);
    assert(style@ =~= spec_span_style(s@));
    style
}

/// Whether `s` starts with `prefix`.
pub fn starts_with(s: &str, prefix: &str) -> (r: bool)
    ensures
        r == (prefix@.len() <= s@.len() && s@.take(prefix@.len() as int) == prefix@),
{
    let a = chars_of(s);
    let b = chars_of(prefix);
    if b.len() > a.len() {
        return false;
    }
    let mut i: usize = 0;
    while i < b.len()
        invariant
            i <= b.len() <= a.len(),
            a@ == s@,
            b@ == prefix@,
            forall|j: int| 0 <= j < i ==> a@[j] == b@[j],
        decreases b.len() - i,
    {
        if a[i] != b[i] {
            assert(s@.take(prefix@.len() as int)[i as int] != prefix@[i as int]);
            return false;
        }
        i = i + 1;
    }
    assert(s@.take(prefix@.len() as int) =~= prefix@);
    true
}

pub open spec fn has_prefix(s: Seq<char>, p: Seq<char>) -> bool {
    p.len() <= s.len() && s.take(p.len() as int) == p
}

/// The `<img>` of an embedded image: the base64 data with all whitespace removed (an
/// image with no data is left out), typed JPEG for `/9j/`, GIF for `R0lGOD`, else PNG,
/// with its width and height in points when positive.
pub open spec fn spec_image_tag(data: Seq<char>, width: Num, height: Num) -> Seq<char> {
    let cleaned = without_white_space(data);
    if cleaned.len() == 0 {
        Seq::empty()
    } else {
        let mime = if has_prefix(cleaned, "/9j/"@) {
            "jpeg"@
        } else if has_prefix(cleaned, "R0lGOD"@) {
            "gif"@
        } else {
            "png"@
        };
        let dim = part_if(width.nanos > 0, "width:"@ + num_text(width.nanos as int) + "pt;"@) + part_if(
            height.nanos > 0,
            "height:"@ + num_text(height.nanos as int) + "pt;"@,
        );
        "<img alt=\"\" style=\""@ + dim + "\" src=\"data:image/"@ + mime + ";base64,"@ + cleaned
            + "\"/>"@
    }
}

pub fn image_tag(img: &ImageRun) -> (r: String)
    ensures
        r@ == spec_image_tag(img.data@, img.width, img.height),
{
    let cleaned = strip_white_space(img.data.as_str());
    let mut out = String::new();
    if cleaned.as_str().is_empty() {
        return out;
    }
    let mime = if starts_with(cleaned.as_str(), "/9j/") {
        "jpeg"
    } else if starts_with(cleaned.as_str(), "R0lGOD") {
        "gif"
    } else {
        "png"
    };
    out.append("<img alt=\"\" style=\"");
    if img.width.nanos > 0 {
        out.append("width:");
        push_num(&mut out, img.width.nanos as i128);
        out.append("pt;");
    }
    if img.height.nanos > 0 {
        out.append("height:");
        push_num(&mut out, img.height.nanos as i128);
        out.append("pt;");
    }
    out.append("\" src=\"data:image/");
    out.append(mime);
    out.append(";base64,");
    out.append(cleaned.as_str());
    out.append("\"/>");
    assert(out@ =~= spec_image_tag(img.data@, img.width, img.height));
    out
}

// ---------------------------------------------------------------------------
// The document as HTML
// ---------------------------------------------------------------------------

/// A labelled measurement, such as `margin-top:12pt;`.
pub open spec fn measure(label: Seq<char>, v: int, unit: Seq<char>) -> Seq<char> {
    label + num_text(v) + unit
}

pub open spec fn align_css(a: Alignment) -> Seq<char> {
    match a {
        Alignment::Left => "text-align:left;"@,
        Alignment::Center => "text-align:center;"@,
        Alignment::Right => "text-align:right;"@,
        Alignment::Justify => "text-align:justify;"@,
    }
}

/// A list item's marker and the counters after it: a bullet glyph, or the list's next
/// number in the list's numbering style.
pub open spec fn html_marker(l: SpecList, c: Counters) -> (Seq<char>, Counters) {
    match l.list_type {
        ListType::Bulleted => (spec_bullet_glyph(l.bullet_type), c),
        ListType::Numbered => (
            spec_number_marker(l.number_type, next_number(c, l.list_id) as nat),
            bumped(c, l.list_id),
        ),
    }
}

pub open spec fn html_run(r: SpecInline) -> Seq<char> {
    match r {
        SpecInline::Text { text, style } => {
            let st = spec_span_style(style);
            if st.len() == 0 {
                spec_escape_text(text)
            } else {
                "<span style=\""@ + st + "\">"@ + spec_escape_text(text) + "</span>"@
            }
        },
        SpecInline::Tab { .. } => seq!['\t'],
        SpecInline::Image { data, width, height } => spec_image_tag(data, width, height),
    }
}

pub open spec fn html_runs(rs: Seq<SpecInline>) -> Seq<char>
    decreases rs.len(),
{
    if rs.len() == 0 {
        Seq::empty()
    } else {
        html_runs(rs.drop_last()) + html_run(rs.last())
    }
}

/// The part of a paragraph's CSS shared by list and plain paragraphs.
pub open spec fn paragraph_head_css(p: SpecParagraph) -> Seq<char> {
    align_css(p.alignment) + part_if(
        p.space_before.nanos != 0,
        measure("margin-top:"@, p.space_before.nanos as int, "pt;"@),
    ) + part_if(
        p.space_after.nanos != 0,
        measure("margin-bottom:"@, p.space_after.nanos as int, "pt;"@),
    ) + part_if(
        p.line_spacing.nanos > 0,
        measure("line-height:"@, 1_000_000_000 + p.line_spacing.nanos, ";"@),
    )
}

/// The indentation of a list item: 18pt per nesting level (a negative level counts as
/// 0) plus the paragraph's left indent, with the marker hanging 18pt to the left.
pub open spec fn list_indent_css(p: SpecParagraph, l: SpecList) -> Seq<char> {
    let level = if l.level < 0 { 0 } else { l.level as int };
    measure("margin-left:"@, (level + 1) * 18_000_000_000 + p.left_indent.nanos, "pt;"@)
        + measure("text-indent:"@, -18_000_000_000, "pt;"@) + part_if(
        p.right_indent.nanos > 0,
        measure("margin-right:"@, p.right_indent.nanos as int, "pt;"@),
    )
}

pub open spec fn plain_indent_css(p: SpecParagraph) -> Seq<char> {
    part_if(p.left_indent.nanos != 0, measure("margin-left:"@, p.left_indent.nanos as int, "pt;"@))
        + part_if(
        p.right_indent.nanos != 0,
        measure("margin-right:"@, p.right_indent.nanos as int, "pt;"@),
    ) + part_if(
        p.first_line_indent.nanos != 0,
        measure("text-indent:"@, p.first_line_indent.nanos as int, "pt;"@),
    )
}

/// A paragraph: `<p>` with its CSS, the list marker as text, then its runs (or a `<br/>`
/// keeping a blank line's height).
pub open spec fn html_paragraph(p: SpecParagraph, c: Counters) -> (Seq<char>, Counters) {
    let (style, marker, c2) = match p.list {
        Some(l) => {
            let (m, c2) = html_marker(l, c);
            (
                paragraph_head_css(p) + list_indent_css(p, l),
                "<span class=\"udf-marker\">"@ + spec_escape_text(m) + "</span>"@,
                c2,
            )
        },
        None => (paragraph_head_css(p) + plain_indent_css(p), Seq::empty(), c),
    };
    (
        "<p style=\""@ + style + "\">"@ + marker + (if p.runs.len() == 0 {
            "<br/>"@
        } else {
            html_runs(p.runs)
        }) + "</p>"@,
        c2,
    )
}

pub open spec fn table_align_css(a: Option<Seq<char>>) -> Seq<char> {
    match a {
        Some(s) => if s == "center"@ {
            "margin-left:auto;margin-right:auto;"@
        } else if s == "right"@ {
            "margin-left:auto;"@
        } else {
            Seq::empty()
        },
        None => Seq::empty(),
    }
}

/// The bound past which a sum of widths is held (far beyond any document that fits in
/// memory).
pub open spec fn width_cap() -> int {
    0x10_0000_0000_0000_0000_0000_0000
}

pub open spec fn clamp_width(v: int) -> int {
    if v > width_cap() {
        width_cap()
    } else if v < -width_cap() {
        -width_cap()
    } else {
        v
    }
}

/// A cell's share of its row: its width, or 100 per spanned column.
pub open spec fn html_cell_weight(c: SpecCell) -> int {
    match c.width {
        Some(w) => w.nanos as int,
        None => (if c.colspan > 1 { c.colspan as int } else { 1 }) * 100_000_000_000,
    }
}

pub open spec fn html_weight_sum(cs: Seq<SpecCell>) -> int
    decreases cs.len(),
{
    if cs.len() == 0 {
        0
    } else {
        clamp_width(html_weight_sum(cs.drop_last()) + html_cell_weight(cs.last()))
    }
}

/// A row's total weight, at least 1.
pub open spec fn html_row_total(cs: Seq<SpecCell>) -> int {
    let t = html_weight_sum(cs);
    if t > 1_000_000_000 { t } else { 1_000_000_000 }
}

/// A cell's width as a whole percentage of its row, rounded half away from zero (a
/// negative width keeps its sign even when it rounds to 0).
#[verifier::opaque]
pub open spec fn percent_text(w: int, total: int) -> Seq<char> {
    let r = round_div(w * 100, total);
    (if w < 0 { seq!['-'] } else { Seq::empty() }) + decimal((if r < 0 { -r } else { r }) as nat)
}

pub open spec fn valign_css(v: VerticalAlignment) -> Seq<char> {
    match v {
        VerticalAlignment::Top => "vertical-align:top;"@,
        VerticalAlignment::Middle => "vertical-align:middle;"@,
        VerticalAlignment::Bottom => "vertical-align:bottom;"@,
    }
}

/// One border edge: drawn when the style is not `borderStyle-none` and the edge's bit is
/// set in `borderSpec` (top=1, right=2, bottom=4, left=8), in the opaque border colour.
pub open spec fn edge_css(c: SpecCell, bit: i32, name: Seq<char>) -> Seq<char> {
    if c.border.style != "borderStyle-none"@ && (c.border_spec & bit) != 0 {
        "border-"@ + name + ":"@ + num_text(c.border_width.nanos as int) + "pt solid "@ + css_hex_of(
            c.border_color,
        ) + ";"@
    } else {
        "border-"@ + name + ":none;"@
    }
}

pub open spec fn width_css(width: Option<Num>, total: int) -> Seq<char> {
    match width {
        Some(w) => "width:"@ + percent_text(w.nanos as int, total) + "%;"@,
        None => Seq::empty(),
    }
}

pub open spec fn height_css(height_min: Option<Num>) -> Seq<char> {
    match height_min {
        Some(h) => part_if(h.nanos > 0, measure("height:"@, h.nanos as int, "pt;"@)),
        None => Seq::empty(),
    }
}

/// The fill colour, skipped for white and for -1.
pub open spec fn fill_css(fill: i32) -> Seq<char> {
    part_if(fill != 16777215 && fill != -1, "background-color:"@ + css_hex_of(fill) + ";"@)
}

/// A cell's padding, alignment, width share, minimum height and fill.
pub open spec fn cell_box_css(c: SpecCell, total: int, height_min: Option<Num>) -> Seq<char> {
    "padding:3pt;"@ + valign_css(c.vertical_align) + width_css(c.width, total) + height_css(
        height_min,
    ) + fill_css(c.fill_color)
}

/// The four border edges of a cell: top, right, bottom, left.
pub open spec fn cell_edges_css(c: SpecCell) -> Seq<char> {
    edge_css(c, 1, "top"@) + edge_css(c, 2, "right"@) + edge_css(c, 4, "bottom"@) + edge_css(
        c,
        8,
        "left"@,
    )
}

/// The declaration of one border edge of a cell: drawn solid, with the cell's border
/// width and colour, when the edge is on and the style is not `borderStyle-none`;
/// `none` otherwise.
pub open spec fn edge_declaration(c: SpecCell, side: Seq<char>, on: bool) -> Seq<char> {
    if c.border.style != "borderStyle-none"@ && on {
        "border-"@ + side + ":"@ + num_text(c.border_width.nanos as int) + "pt solid "@
            + css_hex_of(c.border_color) + ";"@
    } else {
        "border-"@ + side + ":none;"@
    }
}

/// A cell's four border edges follow the bits of its border spec: top 1, right 2,
/// bottom 4, left 8. The edge of a set bit is drawn (unless the style is
/// `borderStyle-none`); the edge of a clear bit is declared `none`.
pub proof fn lemma_cell_edges_follow_spec_bits(c: SpecCell)
    ensures
        contains_text(cell_edges_css(c), edge_declaration(c, "top"@, (c.border_spec & 1) != 0)),
        contains_text(cell_edges_css(c), edge_declaration(c, "right"@, (c.border_spec & 2) != 0)),
        contains_text(cell_edges_css(c), edge_declaration(c, "bottom"@, (c.border_spec & 4) != 0)),
        contains_text(cell_edges_css(c), edge_declaration(c, "left"@, (c.border_spec & 8) != 0)),
{
    let e1 = edge_declaration(c, "top"@, (c.border_spec & 1) != 0);
    let e2 = edge_declaration(c, "right"@, (c.border_spec & 2) != 0);
    let e3 = edge_declaration(c, "bottom"@, (c.border_spec & 4) != 0);
    let e4 = edge_declaration(c, "left"@, (c.border_spec & 8) != 0);
    let all = cell_edges_css(c);
    assert(all == e1 + e2 + e3 + e4);
    lemma_contains_middle(Seq::empty(), e1, e2 + e3 + e4);
    assert(Seq::<char>::empty() + e1 + (e2 + e3 + e4) =~= all);
    lemma_contains_middle(e1, e2, e3 + e4);
    assert(e1 + e2 + (e3 + e4) =~= all);
    lemma_contains_middle(e1 + e2, e3, e4);
    lemma_contains_middle(e1 + e2 + e3, e4, Seq::empty());
    assert(e1 + e2 + e3 + e4 + Seq::<char>::empty() =~= all);
}

pub open spec fn cell_css(c: SpecCell, total: int, height_min: Option<Num>) -> Seq<char> {
    cell_box_css(c, total, height_min) + cell_edges_css(c)
}

pub open spec fn page_break_html() -> Seq<char> {
    "<div class=\"udf-pagebreak\">──────── Sayfa Sonu ────────</div>"@
}

pub open spec fn html_blocks(bs: Seq<SpecBlock>, c: Counters) -> (Seq<char>, Counters)
    decreases bs,
{
    if bs.len() == 0 {
        (Seq::empty(), c)
    } else {
        let (a, c1) = html_blocks(bs.subrange(0, bs.len() - 1), c);
        let (b, c2) = html_block(bs[bs.len() - 1], c1);
        (a + b, c2)
    }
}

pub open spec fn html_block(b: SpecBlock, c: Counters) -> (Seq<char>, Counters)
    decreases b,
{
    match b {
        SpecBlock::Paragraph(p) => html_paragraph(p, c),
        SpecBlock::Table(t) => html_table(t, c),
        SpecBlock::PageBreak => (page_break_html(), c),
    }
}

pub open spec fn html_table(t: SpecTable, c: Counters) -> (Seq<char>, Counters)
    decreases t,
{
    let (rows, c1) = html_rows(t.rows, c);
    (
        "<table class=\"udf-table\" style=\""@ + table_align_css(t.align) + "\"><tbody>"@ + rows
            + "</tbody></table>"@,
        c1,
    )
}

pub open spec fn html_rows(rs: Seq<SpecRow>, c: Counters) -> (Seq<char>, Counters)
    decreases rs,
{
    if rs.len() == 0 {
        (Seq::empty(), c)
    } else {
        let (a, c1) = html_rows(rs.subrange(0, rs.len() - 1), c);
        let (b, c2) = html_row(rs[rs.len() - 1], c1);
        (a + b, c2)
    }
}

pub open spec fn html_row(r: SpecRow, c: Counters) -> (Seq<char>, Counters)
    decreases r,
{
    let (cells, c1) = html_cells(r.cells, html_row_total(r.cells), r.height_min, c);
    ("<tr>"@ + cells + "</tr>"@, c1)
}

pub open spec fn html_cells(cs: Seq<SpecCell>, total: int, height_min: Option<Num>, c: Counters) -> (Seq<char>, Counters)
    decreases cs,
{
    if cs.len() == 0 {
        (Seq::empty(), c)
    } else {
        let (a, c1) = html_cells(cs.subrange(0, cs.len() - 1), total, height_min, c);
        let (b, c2) = html_cell(cs[cs.len() - 1], total, height_min, c1);
        (a + b, c2)
    }
}

pub open spec fn html_cell(cell: SpecCell, total: int, height_min: Option<Num>, c: Counters) -> (Seq<char>, Counters)
    decreases cell,
{
    let (content, c1) = if cell.content.len() == 0 {
        ("<br/>"@, c)
    } else {
        html_blocks(cell.content, c)
    };
    ("<td style=\""@ + cell_css(cell, total, height_min) + "\">"@ + content + "</td>"@, c1)
}

pub open spec fn base_css() -> Seq<char> {
    "\
html,body{margin:0;padding:0;}\
body{background:#e9e9ee;padding:16pt 0;}\
.udf-page{background:#fff;margin:0 auto;box-sizing:border-box;\
box-shadow:0 1pt 6pt rgba(0,0,0,.25);color:#000;}\
.udf-page p{margin:0;white-space:pre-wrap;overflow-wrap:break-word;tab-size:8;}\
.udf-marker{display:inline-block;min-width:14pt;}\
.udf-table{border-collapse:collapse;table-layout:fixed;width:100%;}\
.udf-table td{vertical-align:top;}\
.udf-pagebreak{text-align:center;color:#888;margin:6pt 0;white-space:pre;}\
img{max-width:100%;height:auto;}"@
}

pub open spec fn html_head() -> Seq<char> {
    "<!doctype html><html lang=\"tr\"><head><meta charset=\"utf-8\"/>\
<meta name=\"viewport\" content=\"width=device-width, initial-scale=1\"/>\
<style>"@ + base_css() + "</style></head><body>"@
}

/// The page box: A4 (595.28 x 841.89 pt), turned for landscape, with the margins as
/// padding.
pub open spec fn page_div(pf: PageFormat) -> Seq<char> {
    let (pw, ph) = if pf.paper_orientation == 2 {
        (841_890_000_000int, 595_280_000_000int)
    } else {
        (595_280_000_000int, 841_890_000_000int)
    };
    "<div class=\"udf-page\" style=\"width:"@ + num_text(pw) + "pt;min-height:"@ + num_text(ph)
        + "pt;padding:"@ + num_text(pf.top_margin.nanos as int) + "pt "@ + num_text(
        pf.right_margin.nanos as int,
    ) + "pt "@ + num_text(pf.bottom_margin.nanos as int) + "pt "@ + num_text(
        pf.left_margin.nanos as int,
    ) + "pt;\">"@
}

/// The whole document: head and styles, the page box, then header, body and footer
/// blocks in order (list numbering continues across them).
pub open spec fn spec_to_html(d: SpecDocument) -> Seq<char> {
    let (h, c1) = html_blocks(d.header, Seq::empty());
    let (b, c2) = html_blocks(d.body, c1);
    let (f, c3) = html_blocks(d.footer, c2);
    html_head() + page_div(d.pages) + h + b + f + "</div></body></html>"@
}

// ---------------------------------------------------------------------------
// Writer
// ---------------------------------------------------------------------------

proof fn lemma_html_runs_push(x: Seq<SpecInline>, y: SpecInline)
    ensures
        html_runs(x.push(y)) == html_runs(x) + html_run(y),
{
    assert(x.push(y).drop_last() =~= x);
}

proof fn lemma_html_blocks_push(x: Seq<SpecBlock>, y: SpecBlock, c: Counters)
    ensures
        html_blocks(x.push(y), c) == (
            html_blocks(x, c).0 + html_block(y, html_blocks(x, c).1).0,
            html_block(y, html_blocks(x, c).1).1,
        ),
{
    assert(x.push(y).subrange(0, x.len() as int) =~= x);
}

proof fn lemma_html_rows_push(x: Seq<SpecRow>, y: SpecRow, c: Counters)
    ensures
        html_rows(x.push(y), c) == (
            html_rows(x, c).0 + html_row(y, html_rows(x, c).1).0,
            html_row(y, html_rows(x, c).1).1,
        ),
{
    assert(x.push(y).subrange(0, x.len() as int) =~= x);
}

proof fn lemma_html_cells_push(x: Seq<SpecCell>, y: SpecCell, total: int, hm: Option<Num>, c: Counters)
    ensures
        html_cells(x.push(y), total, hm, c) == (
            html_cells(x, total, hm, c).0 + html_cell(y, total, hm, html_cells(x, total, hm, c).1).0,
            html_cell(y, total, hm, html_cells(x, total, hm, c).1).1,
        ),
{
    assert(x.push(y).subrange(0, x.len() as int) =~= x);
}

proof fn lemma_weight_sum_push(x: Seq<SpecCell>, y: SpecCell)
    ensures
        html_weight_sum(x.push(y)) == clamp_width(html_weight_sum(x) + html_cell_weight(y)),
{
    assert(x.push(y).drop_last() =~= x);
}

/// Appends `label`, the value and `unit` when `cond` holds.
fn push_measure(out: &mut String, cond: bool, label: &str, v: i128, unit: &str)
    requires
        wide(v as int),
    ensures
        final(out)@ == old(out)@ + part_if(cond, measure(label@, v as int, unit@)),
{
    let ghost o = out@;
    if cond {
        out.append(label);
        push_num(out, v);
        out.append(unit);
    }
    assert(out@ =~= o + part_if(cond, measure(label@, v as int, unit@)));
}

fn push_align_css(out: &mut String, a: Alignment)
    ensures
        final(out)@ == old(out)@ + align_css(a),
{
    match a {
        Alignment::Left => out.append("text-align:left;"),
        Alignment::Center => out.append("text-align:center;"),
        Alignment::Right => out.append("text-align:right;"),
        Alignment::Justify => out.append("text-align:justify;"),
    }
}

fn push_head_css(out: &mut String, p: &Paragraph)
    ensures
        final(out)@ == old(out)@ + paragraph_head_css(p@),
{
    let ghost o = out@;
    push_align_css(out, p.alignment);
    push_measure(out, p.space_before.nanos != 0, "margin-top:", p.space_before.nanos as i128, "pt;");
    push_measure(
        out,
        p.space_after.nanos != 0,
        "margin-bottom:",
        p.space_after.nanos as i128,
        "pt;",
    );
    push_measure(
        out,
        p.line_spacing.nanos > 0,
        "line-height:",
        1_000_000_000 + p.line_spacing.nanos as i128,
        ";",
    );
    assert(out@ =~= o + paragraph_head_css(p@));
}

fn push_list_indent_css(out: &mut String, p: &Paragraph, l: &ListProperties)
    ensures
        final(out)@ == old(out)@ + list_indent_css(p@, l@),
{
    let ghost o = out@;
    let level: i128 = if l.level < 0 { 0 } else { l.level as i128 };
    push_measure(out, true, "margin-left:", (level + 1) * 18_000_000_000 + p.left_indent.nanos as i128, "pt;");
    push_measure(out, true, "text-indent:", -18_000_000_000, "pt;");
    push_measure(out, p.right_indent.nanos > 0, "margin-right:", p.right_indent.nanos as i128, "pt;");
    assert(out@ =~= o + list_indent_css(p@, l@));
}

fn push_plain_indent_css(out: &mut String, p: &Paragraph)
    ensures
        final(out)@ == old(out)@ + plain_indent_css(p@),
{
    let ghost o = out@;
    push_measure(out, p.left_indent.nanos != 0, "margin-left:", p.left_indent.nanos as i128, "pt;");
    push_measure(out, p.right_indent.nanos != 0, "margin-right:", p.right_indent.nanos as i128, "pt;");
    push_measure(
        out,
        p.first_line_indent.nanos != 0,
        "text-indent:",
        p.first_line_indent.nanos as i128,
        "pt;",
    );
    assert(out@ =~= o + plain_indent_css(p@));
}

/// Appends the whole-percent width of a cell.
fn push_percent(out: &mut String, w: i128, total: i128)
    requires
        -0x8000_0000_0000_0000 <= w <= 0x8000_0000_0000_0000,
        1_000_000_000 <= total <= width_cap(),
    ensures
        final(out)@ == old(out)@ + percent_text(w as int, total as int),
{
    proof {
        reveal(percent_text);
    }
    let r = round_div_exec(w * 100, total);
    if w < 0 {
        out.push('-');
    }
    let a: i128 = if r < 0 { -r } else { r };
    push_decimal(out, a as u128);
    assert(final(out)@ =~= old(out)@ + percent_text(w as int, total as int));
}

fn push_edge(out: &mut String, c: &TableCell, bit: i32, name: &str)
    ensures
        final(out)@ == old(out)@ + edge_css(view_cell(*c), bit, name@),
{
    let ghost o = out@;
    proof {
        reveal_strlit("borderStyle-none");
    }
    if !str_eq(c.border.style.as_str(), "borderStyle-none") && (c.border_spec & bit) != 0 {
        out.append("border-");
        out.append(name);
        out.append(":");
        push_num(out, c.border_width.nanos as i128);
        out.append("pt solid ");
        let h = border_css_hex(c.border_color);
        proof {
            reveal(css_hex_of);
        }
        out.append(h.as_str());
        out.append(";");
    } else {
        out.append("border-");
        out.append(name);
        out.append(":none;");
    }
    assert(out@ =~= o + edge_css(view_cell(*c), bit, name@));
}

fn push_valign_css(out: &mut String, v: VerticalAlignment)
    ensures
        final(out)@ == old(out)@ + valign_css(v),
{
    match v {
        VerticalAlignment::Top => out.append("vertical-align:top;"),
        VerticalAlignment::Middle => out.append("vertical-align:middle;"),
        VerticalAlignment::Bottom => out.append("vertical-align:bottom;"),
    }
}

fn push_width_css(out: &mut String, width: Option<Num>, total: i128)
    requires
        1_000_000_000 <= total <= width_cap(),
    ensures
        final(out)@ == old(out)@ + width_css(width, total as int),
{
    let ghost o = out@;
    match width {
        Some(w) => {
            out.append("width:");
            push_percent(out, w.nanos as i128, total);
            out.append("%;");
        },
        None => {},
    }
    assert(out@ =~= o + width_css(width, total as int));
}

fn push_fill_css(out: &mut String, fill: i32)
    ensures
        final(out)@ == old(out)@ + fill_css(fill),
{
    let ghost o = out@;
    if fill != 16777215 && fill != -1 {
        out.append("background-color:");
        let h = css_hex(fill);
        proof {
            reveal(css_hex_of);
        }
        out.append(h.as_str());
        out.append(";");
    }
    assert(out@ =~= o + fill_css(fill));
}

fn push_cell_box_css(out: &mut String, c: &TableCell, total: i128, height_min: Option<Num>)
    requires
        1_000_000_000 <= total <= width_cap(),
    ensures
        final(out)@ == old(out)@ + cell_box_css(view_cell(*c), total as int, height_min),
{
    let ghost o = out@;
    out.append("padding:3pt;");
    push_valign_css(out, c.vertical_align);
    push_width_css(out, c.width, total);
    match height_min {
        Some(h) => push_measure(out, h.nanos > 0, "height:", h.nanos as i128, "pt;"),
        None => {},
    }
    push_fill_css(out, c.fill_color);
    assert(out@ =~= o + cell_box_css(view_cell(*c), total as int, height_min));
}

fn push_cell_css(out: &mut String, c: &TableCell, total: i128, height_min: Option<Num>)
    requires
        1_000_000_000 <= total <= width_cap(),
    ensures
        final(out)@ == old(out)@ + cell_css(view_cell(*c), total as int, height_min),
{
    let ghost o = out@;
    push_cell_box_css(out, c, total, height_min);
    let ghost o1 = out@;
    push_edge(out, c, 1, "top");
    push_edge(out, c, 2, "right");
    push_edge(out, c, 4, "bottom");
    push_edge(out, c, 8, "left");
    assert(out@ =~= o1 + cell_edges_css(view_cell(*c)));
    assert(out@ =~= o + cell_css(view_cell(*c), total as int, height_min));
}

fn push_table_open(out: &mut String, align: &Option<String>)
    ensures
        final(out)@ == old(out)@ + "<table class=\"udf-table\" style=\""@ + table_align_css(
            opt_str_view(*align),
        ) + "\"><tbody>"@,
{
    let ghost o = out@;
    proof {
        reveal_strlit("center");
        reveal_strlit("right");
    }
    out.append("<table class=\"udf-table\" style=\"");
    match align {
        Some(a) => {
            if str_eq(a.as_str(), "center") {
                out.append("margin-left:auto;margin-right:auto;");
            } else if str_eq(a.as_str(), "right") {
                out.append("margin-left:auto;");
            }
        },
        None => {},
    }
    out.append("\"><tbody>");
    assert(out@ =~= o + "<table class=\"udf-table\" style=\""@ + table_align_css(opt_str_view(*align))
        + "\"><tbody>"@);
}

/// The total weight of a row's cells (at least one point).
fn row_total(cells: &Vec<TableCell>) -> (r: i128)
    ensures
        r == html_row_total(view_cells(cells@)),
        1_000_000_000 <= r <= width_cap(),
{
    let ghost cv = view_cells(cells@);
    proof {
        lemma_view_cells(cells@);
    }
    let cap: i128 = 0x10_0000_0000_0000_0000_0000_0000;
    let mut acc: i128 = 0;
    let mut k: usize = 0;
    assert(cv.take(0) =~= Seq::<SpecCell>::empty());
    while k < cells.len()
        invariant
            k <= cells.len(),
            cv == view_cells(cells@),
            cv.len() == cells.len(),
            forall|i: int| 0 <= i < cells.len() ==> #[trigger] cv[i] == view_cell(cells@[i]),
            acc == html_weight_sum(cv.take(k as int)),
            -cap <= acc <= cap,
            cap == width_cap(),
        decreases cells.len() - k,
    {
        let c = &cells[k];
        let w: i128 = match c.width {
            Some(w) => w.nanos as i128,
            None => (if c.colspan > 1 { c.colspan as i128 } else { 1 }) * 100_000_000_000,
        };
        assert(w == html_cell_weight(cv[k as int]));
        proof {
            assert(cv.take(k + 1) =~= cv.take(k as int).push(cv[k as int]));
            lemma_weight_sum_push(cv.take(k as int), cv[k as int]);
        }
        let sum = acc + w;
        acc = if sum > cap { cap } else if sum < -cap { -cap } else { sum };
        k = k + 1;
    }
    assert(cv.take(cells.len() as int) =~= cv);
    if acc > 1_000_000_000 { acc } else { 1_000_000_000 }
}

/// Renders a document to HTML, keeping the running list numbers.
pub struct HtmlWriter {
    pub out: String,
    /// Running item number per list id (`None` is the anonymous list).
    pub list_counters: Vec<(Option<i32>, u64)>,
}

impl Default for HtmlWriter {
    fn default() -> (r: HtmlWriter)
        ensures
            r.out@ == Seq::<char>::empty(),
            r.list_counters@ == Seq::<(Option<i32>, u64)>::empty(),
    {
        HtmlWriter::new()
    }
}

impl HtmlWriter {
    pub fn new() -> (r: HtmlWriter)
        ensures
            r.out@ == Seq::<char>::empty(),
            r.list_counters@ == Seq::<(Option<i32>, u64)>::empty(),
    {
        HtmlWriter { out: String::new(), list_counters: Vec::new() }
    }

    /// The marker of a list item; a numbered item takes its list's next number.
    pub fn list_marker(&mut self, list: &ListProperties) -> (r: String)
        ensures
            (r@, final(self).list_counters@) == html_marker(list@, old(self).list_counters@),
            final(self).out == old(self).out,
    {
        match list.list_type {
            ListType::Bulleted => {
                let b = match &list.bullet_type {
                    Some(s) => bullet_glyph(Some(s.as_str())),
                    None => bullet_glyph(None),
                };
                b
            },
            ListType::Numbered => {
                let n = bump_counter(&mut self.list_counters, list.list_id);
                match &list.number_type {
                    Some(s) => number_marker(Some(s.as_str()), n),
                    None => number_marker(None, n),
                }
            },
        }
    }

    fn run(&mut self, run: &InlineElement)
        ensures
            final(self).out@ == old(self).out@ + html_run(run@),
            final(self).list_counters == old(self).list_counters,
    {
        match run {
            InlineElement::Text(t) => {
                let style = span_style(&t.style);
                if style.as_str().is_empty() {
                    push_escaped_text(&mut self.out, t.text.as_str());
                } else {
                    self.out.append("<span style=\"");
                    self.out.append(style.as_str());
                    self.out.append("\">");
                    push_escaped_text(&mut self.out, t.text.as_str());
                    self.out.append("</span>");
                }
            },
            InlineElement::Tab(_) => {
                self.out.push('\t');
                assert(seq!['\t'] =~= html_run(run@));
            },
            InlineElement::Image(img) => {
                let tag = image_tag(img);
                self.out.append(tag.as_str());
            },
        }
    }

    fn paragraph(&mut self, p: &Paragraph)
        ensures
            final(self).out@ == old(self).out@ + html_paragraph(p@, old(self).list_counters@).0,
            final(self).list_counters@ == html_paragraph(p@, old(self).list_counters@).1,
    {
        let ghost c0 = self.list_counters@;
        let ghost o0 = self.out@;
        let mut style = String::new();
        push_head_css(&mut style, p);
        let mut marker_html = String::new();
        match &p.list {
            Some(list) => {
                push_list_indent_css(&mut style, p, list);
                let marker = self.list_marker(list);
                marker_html.append("<span class=\"udf-marker\">");
                push_escaped_text(&mut marker_html, marker.as_str());
                marker_html.append("</span>");
            },
            None => {
                push_plain_indent_css(&mut style, p);
                assert(marker_html@ =~= Seq::<char>::empty());
            },
        }
        self.out.append("<p style=\"");
        self.out.append(style.as_str());
        self.out.append("\">");
        self.out.append(marker_html.as_str());
        let ghost o1 = self.out@;
        let ghost rv = p@.runs;
        if p.runs.len() == 0 {
            self.out.append("<br/>");
        } else {
            let mut k: usize = 0;
            assert(rv.take(0) =~= Seq::<SpecInline>::empty());
            while k < p.runs.len()
                invariant
                    k <= p.runs.len(),
                    rv == p@.runs,
                    rv == p.runs@.map_values(|r: InlineElement| r@),
                    self.out@ == o1 + html_runs(rv.take(k as int)),
                    self.list_counters@ == html_paragraph(p@, c0).1,
                decreases p.runs.len() - k,
            {
                proof {
                    assert(rv.take(k + 1) =~= rv.take(k as int).push(rv[k as int]));
                    lemma_html_runs_push(rv.take(k as int), rv[k as int]);
                }
                self.run(&p.runs[k]);
                k = k + 1;
            }
            assert(rv.take(p.runs.len() as int) =~= rv);
        }
        self.out.append("</p>");
        assert(self.out@ =~= o0 + html_paragraph(p@, c0).0);
    }

    fn blocks(&mut self, bs: &Vec<BlockElement>)
        ensures
            final(self).out@ == old(self).out@ + html_blocks(view_blocks(bs@), old(self).list_counters@).0,
            final(self).list_counters@ == html_blocks(view_blocks(bs@), old(self).list_counters@).1,
        decreases bs,
    {
        let ghost c0 = self.list_counters@;
        let ghost o0 = self.out@;
        let ghost bv = view_blocks(bs@);
        proof {
            lemma_view_blocks(bs@);
        }
        let mut k: usize = 0;
        assert(bv.take(0) =~= Seq::<SpecBlock>::empty());
        while k < bs.len()
            invariant
                k <= bs.len(),
                bv == view_blocks(bs@),
                bv.len() == bs.len(),
                forall|i: int| 0 <= i < bs.len() ==> #[trigger] bv[i] == view_block(bs@[i]),
                self.out@ == o0 + html_blocks(bv.take(k as int), c0).0,
                self.list_counters@ == html_blocks(bv.take(k as int), c0).1,
            decreases bs.len() - k,
        {
            proof {
                assert(bv.take(k + 1) =~= bv.take(k as int).push(bv[k as int]));
                lemma_html_blocks_push(bv.take(k as int), bv[k as int], c0);
            }
            self.block(&bs[k]);
            k = k + 1;
        }
        assert(bv.take(bs.len() as int) =~= bv);
    }

    fn block(&mut self, b: &BlockElement)
        ensures
            final(self).out@ == old(self).out@ + html_block(view_block(*b), old(self).list_counters@).0,
            final(self).list_counters@ == html_block(view_block(*b), old(self).list_counters@).1,
        decreases b,
    {
        match b {
            BlockElement::Paragraph(p) => self.paragraph(p),
            BlockElement::Table(t) => self.table(t),
            BlockElement::PageBreak => {
                self.out.append("<div class=\"udf-pagebreak\">──────── Sayfa Sonu ────────</div>");
            },
        }
    }

    fn table(&mut self, t: &Table)
        ensures
            final(self).out@ == old(self).out@ + html_table(view_table(*t), old(self).list_counters@).0,
            final(self).list_counters@ == html_table(view_table(*t), old(self).list_counters@).1,
        decreases t,
    {
        let ghost c0 = self.list_counters@;
        let ghost o0 = self.out@;
        push_table_open(&mut self.out, &t.align);
        self.rows(&t.rows);
        self.out.append("</tbody></table>");
        let ghost (rs, c1) = html_rows(view_rows(t.rows@), c0);
        assert(self.out@ =~= o0 + ("<table class=\"udf-table\" style=\""@ + table_align_css(
            opt_str_view(t.align),
        ) + "\"><tbody>"@ + rs + "</tbody></table>"@));
    }

    fn rows(&mut self, rows: &Vec<TableRow>)
        ensures
            final(self).out@ == old(self).out@ + html_rows(view_rows(rows@), old(self).list_counters@).0,
            final(self).list_counters@ == html_rows(view_rows(rows@), old(self).list_counters@).1,
        decreases rows,
    {
        let ghost c0 = self.list_counters@;
        let ghost o1 = self.out@;
        let ghost rv = view_rows(rows@);
        proof {
            lemma_view_rows(rows@);
        }
        let mut k: usize = 0;
        assert(rv.take(0) =~= Seq::<SpecRow>::empty());
        while k < rows.len()
            invariant
                k <= rows.len(),
                rv == view_rows(rows@),
                rv.len() == rows.len(),
                forall|i: int| 0 <= i < rows.len() ==> #[trigger] rv[i] == view_row(rows@[i]),
                self.out@ == o1 + html_rows(rv.take(k as int), c0).0,
                self.list_counters@ == html_rows(rv.take(k as int), c0).1,
            decreases rows.len() - k,
        {
            proof {
                assert(rv.take(k + 1) =~= rv.take(k as int).push(rv[k as int]));
                lemma_html_rows_push(rv.take(k as int), rv[k as int], c0);
            }
            self.row(&rows[k]);
            k = k + 1;
        }
        assert(rv.take(rows.len() as int) =~= rv);
    }

    fn row(&mut self, r: &TableRow)
        ensures
            final(self).out@ == old(self).out@ + html_row(view_row(*r), old(self).list_counters@).0,
            final(self).list_counters@ == html_row(view_row(*r), old(self).list_counters@).1,
        decreases r,
    {
        let ghost c0 = self.list_counters@;
        let ghost o0 = self.out@;
        let total = row_total(&r.cells);
        self.out.append("<tr>");
        self.cells(&r.cells, total, r.height_min);
        self.out.append("</tr>");
        let ghost (cs, c1) = html_cells(view_cells(r.cells@), total as int, r.height_min, c0);
        assert(self.out@ =~= o0 + ("<tr>"@ + cs + "</tr>"@));
    }

    fn cells(&mut self, cells: &Vec<TableCell>, total: i128, height_min: Option<Num>)
        requires
            1_000_000_000 <= total <= width_cap(),
        ensures
            final(self).out@ == old(self).out@ + html_cells(
                view_cells(cells@),
                total as int,
                height_min,
                old(self).list_counters@,
            ).0,
            final(self).list_counters@ == html_cells(
                view_cells(cells@),
                total as int,
                height_min,
                old(self).list_counters@,
            ).1,
        decreases cells,
    {
        let ghost c0 = self.list_counters@;
        let ghost o1 = self.out@;
        let ghost cv = view_cells(cells@);
        proof {
            lemma_view_cells(cells@);
        }
        let mut k: usize = 0;
        assert(cv.take(0) =~= Seq::<SpecCell>::empty());
        while k < cells.len()
            invariant
                k <= cells.len(),
                cv == view_cells(cells@),
                cv.len() == cells.len(),
                1_000_000_000 <= total <= width_cap(),
                forall|i: int| 0 <= i < cells.len() ==> #[trigger] cv[i] == view_cell(cells@[i]),
                self.out@ == o1 + html_cells(cv.take(k as int), total as int, height_min, c0).0,
                self.list_counters@ == html_cells(cv.take(k as int), total as int, height_min, c0).1,
            decreases cells.len() - k,
        {
            proof {
                assert(cv.take(k + 1) =~= cv.take(k as int).push(cv[k as int]));
                lemma_html_cells_push(cv.take(k as int), cv[k as int], total as int, height_min, c0);
            }
            self.cell(&cells[k], total, height_min);
            k = k + 1;
        }
        assert(cv.take(cells.len() as int) =~= cv);
    }

    fn cell(&mut self, c: &TableCell, total: i128, height_min: Option<Num>)
        requires
            1_000_000_000 <= total <= width_cap(),
        ensures
            final(self).out@ == old(self).out@ + html_cell(
                view_cell(*c),
                total as int,
                height_min,
                old(self).list_counters@,
            ).0,
            final(self).list_counters@ == html_cell(
                view_cell(*c),
                total as int,
                height_min,
                old(self).list_counters@,
            ).1,
        decreases c,
    {
        let mut style = String::new();
        push_cell_css(&mut style, c, total, height_min);
        self.out.append("<td style=\"");
        self.out.append(style.as_str());
        self.out.append("\">");
        proof {
            lemma_view_blocks(c.content@);
        }
        if c.content.len() == 0 {
            self.out.append("<br/>");
        } else {
            self.blocks(&c.content);
        }
        self.out.append("</td>");
    }

    fn document(&mut self, doc: &Document)
        requires
            old(self).list_counters@ == Seq::<(Option<i32>, u64)>::empty(),
        ensures
            final(self).out@ == old(self).out@ + spec_to_html(doc@),
    {
        let ghost o0 = self.out@;
        push_html_head(&mut self.out);
        push_page_div(&mut self.out, &doc.pages);
        let ghost o1 = self.out@;
        self.blocks(&doc.header);
        let ghost o2 = self.out@;
        self.blocks(&doc.body);
        let ghost o3 = self.out@;
        self.blocks(&doc.footer);
        let ghost o4 = self.out@;
        self.out.append("</div></body></html>");
        let ghost (h, c1) = html_blocks(doc@.header, Seq::empty());
        let ghost (b, c2) = html_blocks(doc@.body, c1);
        let ghost (f, c3) = html_blocks(doc@.footer, c2);
        assert(o2 == o1 + h);
        assert(o3 == o2 + b);
        assert(o4 == o3 + f);
        assert(self.out@ =~= o0 + (html_head() + page_div(doc@.pages) + h + b + f
            + "</div></body></html>"@));
    }
}

fn push_html_head(out: &mut String)
    ensures
        final(out)@ == old(out)@ + html_head(),
{
    let ghost o = out@;
    out.append(
        "<!doctype html><html lang=\"tr\"><head><meta charset=\"utf-8\"/>\
<meta name=\"viewport\" content=\"width=device-width, initial-scale=1\"/>\
<style>",
    );
    out.append(
        "\
html,body{margin:0;padding:0;}\
body{background:#e9e9ee;padding:16pt 0;}\
.udf-page{background:#fff;margin:0 auto;box-sizing:border-box;\
box-shadow:0 1pt 6pt rgba(0,0,0,.25);color:#000;}\
.udf-page p{margin:0;white-space:pre-wrap;overflow-wrap:break-word;tab-size:8;}\
.udf-marker{display:inline-block;min-width:14pt;}\
.udf-table{border-collapse:collapse;table-layout:fixed;width:100%;}\
.udf-table td{vertical-align:top;}\
.udf-pagebreak{text-align:center;color:#888;margin:6pt 0;white-space:pre;}\
img{max-width:100%;height:auto;}",
    );
    out.append("</style></head><body>");
    assert(out@ =~= o + html_head());
}

fn push_page_div(out: &mut String, m: &PageFormat)
    ensures
        final(out)@ == old(out)@ + page_div(*m),
{
    let ghost o = out@;
    let (pw, ph): (i128, i128) = if m.paper_orientation == 2 {
        (841_890_000_000, 595_280_000_000)
    } else {
        (595_280_000_000, 841_890_000_000)
    };
    out.append("<div class=\"udf-page\" style=\"width:");
    push_num(out, pw);
    out.append("pt;min-height:");
    push_num(out, ph);
    out.append("pt;padding:");
    push_num(out, m.top_margin.nanos as i128);
    out.append("pt ");
    push_num(out, m.right_margin.nanos as i128);
    out.append("pt ");
    push_num(out, m.bottom_margin.nanos as i128);
    out.append("pt ");
    push_num(out, m.left_margin.nanos as i128);
    out.append("pt;\">");
    assert(out@ =~= o + page_div(*m));
}

/// Render a [`Document`] to a self-contained HTML string.
pub fn to_html(doc: &Document) -> (r: String)
    ensures
        r@ == spec_to_html(doc@),
{
    let mut w = HtmlWriter::new();
    w.document(doc);
    w.out
}

} // verus!
