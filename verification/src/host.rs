//! What the Windows hosts put around the rendered HTML: the preview pane scales the A4 page
//! to its width, the standalone viewer adds a toolbar or shows an error page, and the shell
//! registration writes class ids and wide (UTF-16, NUL-terminated) strings. These are the
//! pure parts of those hosts; the windowing, COM and registry calls stay with the hosts.

use vstd::prelude::*;
use crate::html::{push_escaped_text, spec_escape_text, spec_to_html};
use crate::model::SpecDocument;
use crate::parser::spec_parse;
use crate::text::{chars_of, decimal, digit_char, push_decimal, str_eq};
use crate::{spec_error_message, udf_to_html, SpecUdfError, UdfError};

verus! {

// ---------------------------------------------------------------------------
// Replacing the first occurrence of a pattern
// ---------------------------------------------------------------------------

/// The first position at or after `i` where `pat` occurs in `s`.
pub open spec fn find_from(s: Seq<char>, pat: Seq<char>, i: int) -> Option<int>
    decreases s.len() + 1 - i,
{
    if i < 0 || i + pat.len() > s.len() {
        None
    } else if s.subrange(i, i + pat.len()) == pat {
        Some(i)
    } else {
        find_from(s, pat, i + 1)
    }
}

proof fn lemma_find_from(s: Seq<char>, pat: Seq<char>, i: int)
    ensures
        find_from(s, pat, i) matches Some(j) ==> i <= j && j + pat.len() <= s.len() && s.subrange(
            j,
            j + pat.len(),
        ) == pat,
    decreases s.len() + 1 - i,
{
    if !(i < 0 || i + pat.len() > s.len()) && s.subrange(i, i + pat.len()) != pat {
        lemma_find_from(s, pat, i + 1);
    }
}

/// `s` with its first occurrence of `pat` replaced by `rep` (`str::replacen(pat, rep, 1)`);
/// `s` itself when `pat` does not occur.
pub open spec fn replace_first(s: Seq<char>, pat: Seq<char>, rep: Seq<char>) -> Seq<char> {
    match find_from(s, pat, 0) {
        Some(i) => s.take(i) + rep + s.skip(i + pat.len()),
        None => s,
    }
}

/// Whether `pat` occurs in `s` at position `i`.
fn occurs_at(s: &Vec<char>, pat: &Vec<char>, i: usize) -> (r: bool)
    requires
        i + pat.len() <= s.len(),
    ensures
        r == (s@.subrange(i as int, i + pat.len()) == pat@),
{
    let mut j: usize = 0;
    while j < pat.len()
        invariant
            j <= pat.len(),
            i + pat.len() <= s.len(),
            forall|k: int| 0 <= k < j ==> s@[i + k] == pat@[k],
        decreases pat.len() - j,
    {
        if s[i + j] != pat[j] {
            assert(s@.subrange(i as int, i + pat.len())[j as int] != pat@[j as int]);
            return false;
        }
        j = j + 1;
    }
    assert(s@.subrange(i as int, i + pat.len()) =~= pat@);
    true
}

/// The first position where `p` occurs in `v`.
fn find_pattern(v: &Vec<char>, p: &Vec<char>) -> (r: Option<usize>)
    ensures
        match r {
            Some(i) => find_from(v@, p@, 0) == Some(i as int),
            None => find_from(v@, p@, 0) is None,
        },
{
    let mut i: usize = 0;
    while i <= v.len() && p.len() <= v.len() - i
        invariant
            find_from(v@, p@, 0) == find_from(v@, p@, i as int),
        decreases v.len() + 1 - i,
    {
        if occurs_at(v, p, i) {
            return Some(i);
        }
        if p.len() == 0 {
            assert(v@.subrange(i as int, i as int) =~= p@);
        }
        i = i + 1;
    }
    None
}

/// `str::replacen(pat, rep, 1)`: the first occurrence of `pat` replaced by `rep`.
pub fn replace_first_exec(s: &str, pat: &str, rep: &str) -> (r: String)
    ensures
        r@ == replace_first(s@, pat@, rep@),
{
    let v = chars_of(s);
    let p = chars_of(pat);
    let found = find_pattern(&v, &p);
    proof {
        lemma_find_from(v@, p@, 0);
    }
    let mut out = String::new();
    match found {
        Some(at) => {
            let mut k: usize = 0;
            while k < at
                invariant
                    k <= at <= v.len(),
                    out@ == v@.take(k as int),
                decreases at - k,
            {
                assert(v@.take(k + 1) =~= v@.take(k as int).push(v@[k as int]));
                out.push(v[k]);
                k = k + 1;
            }
            out.append(rep);
            let ghost mid = out@;
            let mut k: usize = at + p.len();
            while k < v.len()
                invariant
                    at + p.len() <= k <= v.len(),
                    out@ == mid + v@.subrange(at + p.len(), k as int),
                decreases v.len() - k,
            {
                assert(v@.subrange(at + p.len(), k + 1) =~= v@.subrange(at + p.len(), k as int).push(
                    v@[k as int],
                ));
                out.push(v[k]);
                k = k + 1;
            }
            assert(v@.subrange(at + p.len(), v.len() as int) =~= v@.skip(at + p.len()));
        },
        None => {
            out.append(s);
        },
    }
    out
}

// ---------------------------------------------------------------------------
// Preview pane and viewer pages
// ---------------------------------------------------------------------------

/// The style and script the preview pane adds before `</body>`: no horizontal scrolling,
/// and the page zoomed down to the pane's width (never up).
pub open spec fn fit_inject() -> Seq<char> {
    "<style>html{overflow-x:hidden;overflow-y:scroll}\
body{margin:0!important;padding:14px!important;box-sizing:border-box;overflow-x:hidden}\
.udf-page{margin:0!important}</style>\
<script>(function(){function fit(){var p=document.querySelector('.udf-page');if(!p)return;\
p.style.zoom='1';\
var pw=Math.max(p.offsetWidth,p.scrollWidth,document.documentElement.scrollWidth);\
var avail=document.documentElement.clientWidth-36;\
if(pw>0){var s=avail/pw;if(s>1)s=1;p.style.zoom=s;}}\
window.addEventListener('load',fit);window.addEventListener('resize',fit);fit();})();</script>"@
}

/// Scale the A4 page down to the (usually narrow) preview-pane width via CSS `zoom`, so the
/// document fits horizontally and scrolls vertically instead of being clipped.
pub fn fit_to_width(html: &str) -> (r: String)
    ensures
        r@ == replace_first(html@, "</body>"@, fit_inject() + "</body>"@),
{
    let mut rep = String::from_str(
        "<style>html{overflow-x:hidden;overflow-y:scroll}\
body{margin:0!important;padding:14px!important;box-sizing:border-box;overflow-x:hidden}\
.udf-page{margin:0!important}</style>\
<script>(function(){function fit(){var p=document.querySelector('.udf-page');if(!p)return;\
p.style.zoom='1';\
var pw=Math.max(p.offsetWidth,p.scrollWidth,document.documentElement.scrollWidth);\
var avail=document.documentElement.clientWidth-36;\
if(pw>0){var s=avail/pw;if(s>1)s=1;p.style.zoom=s;}}\
window.addEventListener('load',fit);window.addEventListener('resize',fit);fit();})();</script>",
    );
    rep.append("</body>");
    replace_first_exec(html, "</body>", rep.as_str())
}

/// Text escaped for HTML: `&`, `<` and `>` become entities.
pub fn html_escape(s: &str) -> (r: String)
    ensures
        r@ == spec_escape_text(s@),
{
    let mut out = String::new();
    push_escaped_text(&mut out, s);
    out
}

/// The viewer's toolbar: the "open in UYAP Editör" button and the escaped file name, then
/// a spacer so the toolbar does not cover the page.
pub open spec fn toolbar(filename: Seq<char>) -> Seq<char> {
    "<div style=\"position:fixed;top:0;left:0;right:0;height:40px;background:#2b2b2b;\
display:flex;align-items:center;padding:0 12px;z-index:99999;\
box-shadow:0 1px 4px rgba(0,0,0,.35);font-family:Segoe UI,sans-serif;\">\
<button onclick=\"window.ipc.postMessage('open-editor')\" \
style=\"background:#0a6cff;color:#fff;border:0;border-radius:4px;padding:7px 14px;\
font-size:13px;cursor:pointer;\">UYAP Editör'de Aç</button>\
<span style=\"color:#cfcfcf;margin-left:12px;font-size:13px;\">"@ + spec_escape_text(filename)
        + "</span>\
</div><div style=\"height:48px;\"></div>"@
}

/// Inject the toolbar just after the first `<body>`.
pub fn inject_toolbar(html: &str, filename: &str) -> (r: String)
    ensures
        r@ == replace_first(html@, "<body>"@, "<body>"@ + toolbar(filename@)),
{
    let mut rep = String::from_str("<body>");
    rep.append(
        "<div style=\"position:fixed;top:0;left:0;right:0;height:40px;background:#2b2b2b;\
display:flex;align-items:center;padding:0 12px;z-index:99999;\
box-shadow:0 1px 4px rgba(0,0,0,.35);font-family:Segoe UI,sans-serif;\">\
<button onclick=\"window.ipc.postMessage('open-editor')\" \
style=\"background:#0a6cff;color:#fff;border:0;border-radius:4px;padding:7px 14px;\
font-size:13px;cursor:pointer;\">UYAP Editör'de Aç</button>\
<span style=\"color:#cfcfcf;margin-left:12px;font-size:13px;\">",
    );
    push_escaped_text(&mut rep, filename);
    rep.append("</span>\
</div><div style=\"height:48px;\"></div>");
    assert(rep@ =~= "<body>"@ + toolbar(filename@));
    replace_first_exec(html, "<body>", rep.as_str())
}

/// The page shown instead of a document that could not be read or parsed.
pub open spec fn spec_error_page(message: Seq<char>) -> Seq<char> {
    "<!doctype html><html lang=\"tr\"><head><meta charset=\"utf-8\"/></head>\
<body style=\"font-family:Segoe UI,sans-serif;padding:32px;color:#333;\">\
<h2>Görüntülenemedi</h2><pre style=\"white-space:pre-wrap;color:#a00;\">"@ + spec_escape_text(
        message,
    ) + "</pre></body></html>"@
}

pub fn error_page(message: &str) -> (r: String)
    ensures
        r@ == spec_error_page(message@),
{
    let mut out = String::from_str(
        "<!doctype html><html lang=\"tr\"><head><meta charset=\"utf-8\"/></head>\
<body style=\"font-family:Segoe UI,sans-serif;padding:32px;color:#333;\">\
<h2>Görüntülenemedi</h2><pre style=\"white-space:pre-wrap;color:#a00;\">",
    );
    push_escaped_text(&mut out, message);
    out.append("</pre></body></html>");
    out
}

// ---------------------------------------------------------------------------
// Registration and window geometry
// ---------------------------------------------------------------------------

/// The UTF-16 code units of a character: itself below U+10000, else a surrogate pair.
pub open spec fn utf16_units(c: char) -> Seq<u16> {
    let v = c as int;
    if v < 0x10000 {
        seq![v as u16]
    } else {
        seq![(0xD800 + (v - 0x10000) / 0x400) as u16, (0xDC00 + (v - 0x10000) % 0x400) as u16]
    }
}

pub open spec fn utf16_of(s: Seq<char>) -> Seq<u16>
    decreases s.len(),
{
    if s.len() == 0 {
        Seq::empty()
    } else {
        utf16_of(s.drop_last()) + utf16_units(s.last())
    }
}

fn push_utf16(out: &mut Vec<u16>, ch: char)
    ensures
        final(out)@ == old(out)@ + utf16_units(ch),
{
    let c = ch as u32;
    assert(c as int == ch as int);
    if c < 0x10000 {
        out.push(c as u16);
    } else {
        let w = c - 0x10000;
        assert(w < 0x100000);
        out.push((0xD800 + w / 0x400) as u16);
        out.push((0xDC00 + w % 0x400) as u16);
    }
    assert(final(out)@ =~= old(out)@ + utf16_units(ch));
}

/// The text as a NUL-terminated UTF-16 string, as Win32 wide-string calls take it.
pub fn wide(s: &str) -> (r: Vec<u16>)
    ensures
        r@ == utf16_of(s@).push(0u16),
{
    let v = chars_of(s);
    let mut out: Vec<u16> = Vec::new();
    let mut k: usize = 0;
    while k < v.len()
        invariant
            k <= v.len(),
            v@ == s@,
            out@ == utf16_of(v@.take(k as int)),
        decreases v.len() - k,
    {
        assert(v@.take(k + 1).drop_last() =~= v@.take(k as int));
        push_utf16(&mut out, v[k]);
        k = k + 1;
    }
    assert(v@.take(v.len() as int) =~= v@);
    out.push(0);
    out
}

/// A COM class id: the four fields of a GUID.
pub struct Guid {
    pub data1: u32,
    pub data2: u16,
    pub data3: u16,
    pub data4: [u8; 8],
}

pub open spec fn upper_hex_char(d: int) -> char {
    if d < 10 {
        digit_char(d)
    } else {
        ((d - 10 + 65) as u8) as char
    }
}

/// `width` upper-case hexadecimal digits of `v`, zero-padded (`{:0NX}` of a value that
/// fits).
pub open spec fn upper_hex(v: nat, width: nat) -> Seq<char>
    decreases width,
{
    if width == 0 {
        Seq::empty()
    } else {
        upper_hex(v / 16, (width - 1) as nat).push(upper_hex_char((v % 16) as int))
    }
}

/// A GUID in registry form: `{XXXXXXXX-XXXX-XXXX-XXXX-XXXXXXXXXXXX}`, upper-case.
pub open spec fn spec_guid_str(g: Guid) -> Seq<char> {
    let d = g.data4@;
    seq!['{'] + upper_hex(g.data1 as nat, 8) + seq!['-'] + upper_hex(g.data2 as nat, 4) + seq!['-']
        + upper_hex(g.data3 as nat, 4) + seq!['-'] + upper_hex(d[0] as nat, 2) + upper_hex(
        d[1] as nat,
        2,
    ) + seq!['-'] + upper_hex(d[2] as nat, 2) + upper_hex(d[3] as nat, 2) + upper_hex(d[4] as nat, 2)
        + upper_hex(d[5] as nat, 2) + upper_hex(d[6] as nat, 2) + upper_hex(d[7] as nat, 2)
        + seq!['}']
}

fn push_upper_hex(out: &mut String, v: u64, width: usize)
    ensures
        final(out)@ == old(out)@ + upper_hex(v as nat, width as nat),
    decreases width,
{
    if width > 0 {
        push_upper_hex(out, v / 16, width - 1);
        let d = (v % 16) as u8;
        let c = if d < 10 { (d + 48) as char } else { (d - 10 + 65) as char };
        out.push(c);
    }
    assert(final(out)@ =~= old(out)@ + upper_hex(v as nat, width as nat));
}

/// The registry form of a class id.
pub fn guid_str(g: &Guid) -> (r: String)
    ensures
        r@ == spec_guid_str(*g),
{
    let mut out = String::new();
    out.push('{');
    push_upper_hex(&mut out, g.data1 as u64, 8);
    out.push('-');
    push_upper_hex(&mut out, g.data2 as u64, 4);
    out.push('-');
    push_upper_hex(&mut out, g.data3 as u64, 4);
    out.push('-');
    push_upper_hex(&mut out, g.data4[0] as u64, 2);
    push_upper_hex(&mut out, g.data4[1] as u64, 2);
    out.push('-');
    let mut i: usize = 2;
    while i < 8
        invariant
            2 <= i <= 8,
            out@ == seq!['{'] + upper_hex(g.data1 as nat, 8) + seq!['-'] + upper_hex(g.data2 as nat, 4)
                + seq!['-'] + upper_hex(g.data3 as nat, 4) + seq!['-'] + upper_hex(
                g.data4@[0] as nat,
                2,
            ) + upper_hex(g.data4@[1] as nat, 2) + seq!['-'] + hex_pairs(g.data4@, 2, i as int),
        decreases 8 - i,
    {
        push_upper_hex(&mut out, g.data4[i] as u64, 2);
        i = i + 1;
    }
    out.push('}');
    proof {
        reveal_with_fuel(hex_pairs, 7);
    }
    assert(out@ =~= spec_guid_str(*g));
    out
}

/// The two-digit upper-case hexadecimal of `d[from..to]`, in order.
pub open spec fn hex_pairs(d: Seq<u8>, from: int, to: int) -> Seq<char>
    decreases to - from,
{
    if to <= from {
        Seq::empty()
    } else {
        hex_pairs(d, from, to - 1) + upper_hex(d[to - 1] as nat, 2)
    }
}

/// Where the preview's web view goes in its parent window: at the host rectangle's corner,
/// as wide and as tall as the rectangle (nothing for an inverted one).
pub struct PaneBounds {
    pub x: i32,
    pub y: i32,
    pub width: i32,
    pub height: i32,
}

pub fn pane_bounds(left: i32, top: i32, right: i32, bottom: i32) -> (r: PaneBounds)
    requires
        i32::MIN <= right - left <= i32::MAX,
        i32::MIN <= bottom - top <= i32::MAX,
    ensures
        r.x == left,
        r.y == top,
        r.width == (if right - left > 0 { right - left } else { 0 }),
        r.height == (if bottom - top > 0 { bottom - top } else { 0 }),
{
    let w = right - left;
    let h = bottom - top;
    PaneBounds { x: left, y: top, width: if w > 0 { w } else { 0 }, height: if h > 0 { h } else { 0 } }
}

// ---------------------------------------------------------------------------
// What the preview pane and the viewer show
// ---------------------------------------------------------------------------

/// The preview pane's page for `.udf` bytes: the document's HTML scaled to the pane width.
pub fn preview_html(bytes: &[u8]) -> (r: Result<String, UdfError>)
    ensures
        match r {
            Ok(s) => spec_parse(bytes@) matches Ok(d) && s@ == replace_first(
                spec_to_html(d),
                "</body>"@,
                fit_inject() + "</body>"@,
            ),
            Err(e) => spec_parse(bytes@) == Err::<SpecDocument, SpecUdfError>(e@),
        },
{
    match udf_to_html(bytes) {
        Ok(html) => Ok(fit_to_width(html.as_str())),
        Err(e) => Err(e),
    }
}

/// The address each preview load is served from; a fresh `id` per load keeps the web
/// view from answering out of its cache.
pub fn preview_url(id: u64) -> (r: String)
    ensures
        r@ == "udf://localhost/?v="@ + decimal(id as nat),
{
    let mut out = String::from_str("udf://localhost/?v=");
    push_decimal(&mut out, id as u128);
    out
}

/// The viewer's page for `.udf` bytes: the document with the toolbar, or an error page
/// saying why the document could not be parsed.
pub fn viewer_page(bytes: &[u8], title: &str) -> (r: String)
    ensures
        r@ == match spec_parse(bytes@) {
            Ok(d) => replace_first(spec_to_html(d), "<body>"@, "<body>"@ + toolbar(title@)),
            Err(e) => spec_error_page("Belge ayrıştırılamadı: "@ + spec_error_message(e)),
        },
{
    match udf_to_html(bytes) {
        Ok(html) => inject_toolbar(html.as_str(), title),
        Err(e) => {
            let mut m = String::from_str("Belge ayrıştırılamadı: ");
            let text = e.message();
            m.append(text.as_str());
            error_page(m.as_str())
        },
    }
}

/// The viewer's page for a file that could not be read.
pub fn unreadable_file_page(input: &str, error: &str) -> (r: String)
    ensures
        r@ == spec_error_page("Dosya okunamadı: "@ + input@ + seq!['\n'] + error@),
{
    let mut m = String::from_str("Dosya okunamadı: ");
    m.append(input);
    m.push('\n');
    m.append(error);
    assert(m@ =~= "Dosya okunamadı: "@ + input@ + seq!['\n'] + error@);
    error_page(m.as_str())
}

/// The viewer window's title for a file name.
pub fn window_title(title: &str) -> (r: String)
    ensures
        r@ == title@ + " — UDF Görüntüleyici"@,
{
    let mut out = String::from_str(title);
    out.append(" — UDF Görüntüleyici");
    out
}

/// Whether a message from the page asks to open the document in the editor.
pub fn is_open_editor_message(body: &str) -> (r: bool)
    ensures
        r == (body@ == "open-editor"@),
{
    str_eq(body, "open-editor")
}

// ---------------------------------------------------------------------------
// Shell registration
// ---------------------------------------------------------------------------

/// One string value the shell registration writes: under the key `path` (from the
/// registry root), the value `name` (the key's default value when `None`) set to `data`.
pub struct RegistryValue {
    pub path: String,
    pub name: Option<String>,
    pub data: String,
}

pub struct SpecRegistryValue {
    pub path: Seq<char>,
    pub name: Option<Seq<char>>,
    pub data: Seq<char>,
}

impl View for RegistryValue {
    type V = SpecRegistryValue;

    open spec fn view(&self) -> SpecRegistryValue {
        SpecRegistryValue {
            path: self.path@,
            name: match self.name {
                Some(n) => Some(n@),
                None => None,
            },
            data: self.data@,
        }
    }
}

/// The shell category under which a `.udf` thumbnail handler is registered.
pub open spec fn thumbnail_category() -> Seq<char> {
    "{e357fccd-a995-4576-b01f-234630154e96}"@
}

/// The shell category under which a `.udf` preview handler is registered.
pub open spec fn preview_category() -> Seq<char> {
    "{8895b1c6-b41f-4c1c-a562-0d564250836f}"@
}

/// A key below `Software\Classes`.
pub open spec fn class_key(subkey: Seq<char>) -> Seq<char> {
    "Software\\Classes\\"@ + subkey
}

pub open spec fn reg_value(path: Seq<char>, name: Option<Seq<char>>, data: Seq<char>) -> SpecRegistryValue {
    SpecRegistryValue { path, name, data }
}

/// The values that register both handlers, in the order they are written: each class id
/// with its description, in-process server (this DLL, apartment threaded) and, for the
/// preview handler, the surrogate `appid`; then the `.udf` shell extension slots.
pub open spec fn spec_registration_values(dll: Seq<char>, thumb: Seq<char>, preview: Seq<char>, appid: Seq<char>) -> Seq<SpecRegistryValue> {
    let thumb_key = class_key("CLSID\\"@ + thumb);
    let thumb_server = class_key("CLSID\\"@ + thumb + "\\InprocServer32"@);
    let preview_key = class_key("CLSID\\"@ + preview);
    let preview_server = class_key("CLSID\\"@ + preview + "\\InprocServer32"@);
    seq![
        reg_value(thumb_key, None, "UDF Thumbnail Handler"@),
        reg_value(thumb_server, None, dll),
        reg_value(thumb_server, Some("ThreadingModel"@), "Apartment"@),
        reg_value(class_key(".udf\\ShellEx\\"@ + thumbnail_category()), None, thumb),
        reg_value(preview_key, None, "UDF Preview Handler"@),
        reg_value(preview_key, Some("AppID"@), appid),
        reg_value(preview_server, None, dll),
        reg_value(preview_server, Some("ThreadingModel"@), "Apartment"@),
        reg_value(class_key(".udf\\ShellEx\\"@ + preview_category()), None, preview),
    ]
}

fn value(path: String, name: Option<&str>, data: &str) -> (r: RegistryValue)
    ensures
        r@ == reg_value(
            path@,
            match name {
                Some(n) => Some(n@),
                None => None,
            },
            data@,
        ),
{
    RegistryValue {
        path,
        name: match name {
            Some(n) => Some(String::from_str(n)),
            None => None,
        },
        data: String::from_str(data),
    }
}

/// `Software\Classes\` followed by the pieces.
fn class_path(a: &str, b: &str, c: &str) -> (r: String)
    ensures
        r@ == class_key(a@ + b@ + c@),
{
    let mut out = String::from_str("Software\\Classes\\");
    out.append(a);
    out.append(b);
    out.append(c);
    assert(out@ =~= class_key(a@ + b@ + c@));
    out
}

/// The values that register the thumbnail handler `thumb` and the preview handler
/// `preview`, both served by the DLL at `dll`, the preview handler in the surrogate
/// `appid`.
pub fn registration_values(dll: &str, thumb: &str, preview: &str, appid: &str) -> (r: Vec<RegistryValue>)
    ensures
        r@.map_values(|v: RegistryValue| v@) == spec_registration_values(dll@, thumb@, preview@, appid@),
{
    proof {
        reveal_strlit("");
    }
    let mut out: Vec<RegistryValue> = Vec::new();
    out.push(value(class_path("CLSID\\", thumb, ""), None, "UDF Thumbnail Handler"));
    out.push(value(class_path("CLSID\\", thumb, "\\InprocServer32"), None, dll));
    out.push(value(class_path("CLSID\\", thumb, "\\InprocServer32"), Some("ThreadingModel"), "Apartment"));
    out.push(value(class_path(".udf\\ShellEx\\", "{e357fccd-a995-4576-b01f-234630154e96}", ""), None, thumb));
    out.push(value(class_path("CLSID\\", preview, ""), None, "UDF Preview Handler"));
    out.push(value(class_path("CLSID\\", preview, ""), Some("AppID"), appid));
    out.push(value(class_path("CLSID\\", preview, "\\InprocServer32"), None, dll));
    out.push(value(class_path("CLSID\\", preview, "\\InprocServer32"), Some("ThreadingModel"), "Apartment"));
    out.push(value(class_path(".udf\\ShellEx\\", "{8895b1c6-b41f-4c1c-a562-0d564250836f}", ""), None, preview));
    assert(("CLSID\\"@ + thumb@ + ""@) =~= "CLSID\\"@ + thumb@);
    assert(("CLSID\\"@ + preview@ + ""@) =~= "CLSID\\"@ + preview@);
    assert((".udf\\ShellEx\\"@ + thumbnail_category() + ""@) =~= ".udf\\ShellEx\\"@ + thumbnail_category());
    assert((".udf\\ShellEx\\"@ + preview_category() + ""@) =~= ".udf\\ShellEx\\"@ + preview_category());
    assert(out@.map_values(|v: RegistryValue| v@) =~= spec_registration_values(dll@, thumb@, preview@, appid@));
    out
}

/// A registry root the shell registration writes under.
#[derive(Clone, Copy, Debug, PartialEq, Eq, Structural)]
pub enum RegistryRoot {
    /// `HKEY_LOCAL_MACHINE`: needs administrator rights; its class keys are redirected
    /// per architecture, so 32-bit and 64-bit hosts each find their DLL under one id.
    LocalMachine,
    /// `HKEY_CURRENT_USER`: always writable, without that redirection.
    CurrentUser,
}

/// The root that receives [`registration_values`], given whether their first value
/// (the thumbnail class description) could be written under
/// [`RegistryRoot::LocalMachine`]: that root when it could, else
/// [`RegistryRoot::CurrentUser`].
pub fn registration_root(machine_write_ok: bool) -> (r: RegistryRoot)
    ensures
        r == (if machine_write_ok {
            RegistryRoot::LocalMachine
        } else {
            RegistryRoot::CurrentUser
        }),
{
    if machine_write_ok {
        RegistryRoot::LocalMachine
    } else {
        RegistryRoot::CurrentUser
    }
}

/// The roots that receive the [`approved_preview_handler`] entry (each write's failure
/// ignored) and from which unregistering removes everything: machine-wide, then the
/// current user.
pub fn all_registry_roots() -> (r: Vec<RegistryRoot>)
    ensures
        r@ == seq![RegistryRoot::LocalMachine, RegistryRoot::CurrentUser],
{
    let mut out: Vec<RegistryRoot> = Vec::new();
    out.push(RegistryRoot::LocalMachine);
    out.push(RegistryRoot::CurrentUser);
    assert(out@ =~= seq![RegistryRoot::LocalMachine, RegistryRoot::CurrentUser]);
    out
}

/// The key listing approved preview handlers.
pub open spec fn preview_handlers_key() -> Seq<char> {
    "Software\\Microsoft\\Windows\\CurrentVersion\\PreviewHandlers"@
}

/// The entry that approves the preview handler `preview`.
pub fn approved_preview_handler(preview: &str) -> (r: RegistryValue)
    ensures
        r@ == reg_value(preview_handlers_key(), Some(preview@), "UDF Preview Handler"@),
{
    value(
        String::from_str("Software\\Microsoft\\Windows\\CurrentVersion\\PreviewHandlers"),
        Some(preview),
        "UDF Preview Handler",
    )
}

/// The keys unregistering removes (each with everything below it): both class ids and
/// both `.udf` shell extension slots.
pub open spec fn spec_unregistration_keys(thumb: Seq<char>, preview: Seq<char>) -> Seq<Seq<char>> {
    seq![
        class_key("CLSID\\"@ + thumb),
        class_key(".udf\\ShellEx\\"@ + thumbnail_category()),
        class_key("CLSID\\"@ + preview),
        class_key(".udf\\ShellEx\\"@ + preview_category()),
    ]
}

pub fn unregistration_keys(thumb: &str, preview: &str) -> (r: Vec<String>)
    ensures
        r@.map_values(|k: String| k@) == spec_unregistration_keys(thumb@, preview@),
{
    proof {
        reveal_strlit("");
    }
    let mut out: Vec<String> = Vec::new();
    out.push(class_path("CLSID\\", thumb, ""));
    out.push(class_path(".udf\\ShellEx\\", "{e357fccd-a995-4576-b01f-234630154e96}", ""));
    out.push(class_path("CLSID\\", preview, ""));
    out.push(class_path(".udf\\ShellEx\\", "{8895b1c6-b41f-4c1c-a562-0d564250836f}", ""));
    assert(("CLSID\\"@ + thumb@ + ""@) =~= "CLSID\\"@ + thumb@);
    assert(("CLSID\\"@ + preview@ + ""@) =~= "CLSID\\"@ + preview@);
    assert((".udf\\ShellEx\\"@ + thumbnail_category() + ""@) =~= ".udf\\ShellEx\\"@ + thumbnail_category());
    assert((".udf\\ShellEx\\"@ + preview_category() + ""@) =~= ".udf\\ShellEx\\"@ + preview_category());
    assert(out@.map_values(|k: String| k@) =~= spec_unregistration_keys(thumb@, preview@));
    out
}

} // verus!
