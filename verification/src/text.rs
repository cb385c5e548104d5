//! Character-level building blocks shared by the parser and the renderers: collecting a
//! string's characters, appending to a `String`, and decimal / hexadecimal digits.

use vstd::prelude::*;
use vstd::std_specs::iter::IteratorSpec;

verus! {

broadcast use vstd::string::group_string_axioms;

/// `String::push` appends one character.
pub assume_specification[ String::push ](string: &mut String, ch: char)
    ensures
        final(string)@ == old(string)@.push(ch),
;

/// Whether `t` occurs in `s` as a run of consecutive characters.
pub open spec fn contains_text(s: Seq<char>, t: Seq<char>) -> bool {
    exists|i: int| 0 <= i && i + t.len() <= s.len() && #[trigger] s.subrange(i, i + t.len()) == t
}

/// `b` occurs in `a + b + c`.
pub proof fn lemma_contains_middle(a: Seq<char>, b: Seq<char>, c: Seq<char>)
    ensures
        contains_text(a + b + c, b),
{
    assert((a + b + c).subrange(a.len() as int, a.len() + b.len() as int) =~= b);
}

/// `t` does not occur in `s` when, at every place it could start, the character `k`
/// places on differs from `t[k]`.
pub proof fn lemma_absent_by_char(s: Seq<char>, t: Seq<char>, k: int)
    requires
        0 <= k < t.len(),
        forall|j: int| 0 <= j && j + t.len() <= s.len() ==> #[trigger] s[j + k] != t[k],
    ensures
        !contains_text(s, t),
{
    if contains_text(s, t) {
        let i = choose|i: int| 0 <= i && i + t.len() <= s.len() && #[trigger] s.subrange(i, i + t.len()) == t;
        assert(s.subrange(i, i + t.len())[k] == s[i + k]);
    }
}

/// A run of `a + b + c` is a run of `a + b + c` whenever it is a run of `b`.
pub proof fn lemma_contains_within(a: Seq<char>, b: Seq<char>, c: Seq<char>, t: Seq<char>)
    requires
        contains_text(b, t),
    ensures
        contains_text(a + b + c, t),
{
    let i = choose|i: int| 0 <= i && i + t.len() <= b.len() && #[trigger] b.subrange(i, i + t.len()) == t;
    assert((a + b + c).subrange(a.len() + i, a.len() + i + t.len()) =~= b.subrange(i, i + t.len()));
}

/// Whether `c` occurs nowhere in `s`.
pub open spec fn lacks_char(s: Seq<char>, c: char) -> bool {
    forall|i: int| 0 <= i < s.len() ==> #[trigger] s[i] != c
}

pub proof fn lemma_lacks_concat(a: Seq<char>, b: Seq<char>, c: char)
    requires
        lacks_char(a, c),
        lacks_char(b, c),
    ensures
        lacks_char(a + b, c),
{
    assert forall|i: int| 0 <= i < (a + b).len() implies #[trigger] (a + b)[i] != c by {
        if i < a.len() {
            assert((a + b)[i] == a[i]);
        } else {
            assert((a + b)[i] == b[i - a.len()]);
        }
    }
}

/// A text with a character that `s` lacks does not occur in `s`.
pub proof fn lemma_absent_by_missing_char(s: Seq<char>, t: Seq<char>, k: int)
    requires
        0 <= k < t.len(),
        lacks_char(s, t[k]),
    ensures
        !contains_text(s, t),
{
    assert forall|j: int| 0 <= j && j + t.len() <= s.len() implies #[trigger] s[j + k] != t[k] by {}
    lemma_absent_by_char(s, t, k);
}

/// The characters of `s`, in order.
pub fn chars_of(s: &str) -> (r: Vec<char>)
    ensures
        r@ == s@,
{
    let mut out: Vec<char> = Vec::new();
    for c in it: s.chars()
        invariant
            out@ == it.seq().take(it.index() as int),
    {
        out.push(c);
    }
    out
}

/// The ASCII character of decimal digit `d` (`0 <= d < 10`).
pub open spec fn digit_char(d: int) -> char {
    ((d + 48) as u8) as char
}

/// The lower-case hexadecimal character of `d` (`0 <= d < 16`).
pub open spec fn hex_char(d: int) -> char {
    if d < 10 {
        digit_char(d)
    } else {
        ((d - 10 + 97) as u8) as char
    }
}

/// Decimal notation of a natural number, without leading zeros (`0` is "0").
pub open spec fn decimal(n: nat) -> Seq<char>
    decreases n,
{
    if n < 10 {
        seq![digit_char(n as int)]
    } else {
        decimal(n / 10).push(digit_char((n % 10) as int))
    }
}

/// Decimal notation of an integer, with a leading `-` when negative (Rust's `Display`).
pub open spec fn signed_decimal(v: int) -> Seq<char> {
    if v < 0 {
        seq!['-'] + decimal((-v) as nat)
    } else {
        decimal(v as nat)
    }
}

/// Two lower-case hexadecimal digits of a byte (Rust's `{:02x}`).
pub open spec fn hex2(b: u8) -> Seq<char> {
    seq![hex_char((b / 16) as int), hex_char((b % 16) as int)]
}

/// The character of a decimal digit.
pub fn digit_to_char(d: u8) -> (c: char)
    requires
        d < 10,
    ensures
        c == digit_char(d as int),
{
    (d + 48) as char
}

/// The lower-case hexadecimal character of a nibble.
pub fn nibble_to_char(d: u8) -> (c: char)
    requires
        d < 16,
    ensures
        c == hex_char(d as int),
{
    if d < 10 {
        (d + 48) as char
    } else {
        (d - 10 + 97) as char
    }
}

/// Appends the decimal notation of `n`.
pub fn push_decimal(out: &mut String, n: u128)
    ensures
        final(out)@ == old(out)@ + decimal(n as nat),
    decreases n,
{
    if n >= 10 {
        push_decimal(out, n / 10);
    }
    let d = (n % 10) as u8;
    out.push(digit_to_char(d));
    proof {
        if n >= 10 {
            assert(decimal(n as nat) == decimal((n / 10) as nat).push(digit_char((n % 10) as int)));
        }
    }
    assert(final(out)@ =~= old(out)@ + decimal(n as nat));
}

/// Appends the decimal notation of a signed integer.
pub fn push_signed(out: &mut String, v: i128)
    requires
        v > i128::MIN,
    ensures
        final(out)@ == old(out)@ + signed_decimal(v as int),
{
    if v < 0 {
        out.push('-');
        push_decimal(out, (-v) as u128);
        assert(final(out)@ =~= old(out)@ + signed_decimal(v as int));
    } else {
        push_decimal(out, v as u128);
    }
}

/// Appends the two lower-case hexadecimal digits of a byte.
pub fn push_hex2(out: &mut String, b: u8)
    ensures
        final(out)@ == old(out)@ + hex2(b),
{
    out.push(nibble_to_char(b / 16));
    out.push(nibble_to_char(b % 16));
    assert(final(out)@ =~= old(out)@ + hex2(b));
}

/// Character-by-character equality of two strings.
pub fn str_eq(a: &str, b: &str) -> (r: bool)
    ensures
        r == (a@ == b@),
{
    let x = chars_of(a);
    let y = chars_of(b);
    if x.len() != y.len() {
        return false;
    }
    let mut i: usize = 0;
    while i < x.len()
        invariant
            x.len() == y.len(),
            x@ == a@,
            y@ == b@,
            i <= x.len(),
            forall|j: int| 0 <= j < i ==> x@[j] == y@[j],
        decreases x.len() - i,
    {
        if x[i] != y[i] {
            return false;
        }
        i = i + 1;
    }
    assert(x@ =~= y@);
    true
}

/// `char::is_whitespace`: the Unicode `White_Space` property.
pub open spec fn is_white_space(c: char) -> bool {
    let u = c as u32;
    (0x9 <= u && u <= 0xD) || u == 0x20 || u == 0x85 || u == 0xA0 || u == 0x1680 || (0x2000 <= u
        && u <= 0x200A) || u == 0x2028 || u == 0x2029 || u == 0x202F || u == 0x205F || u == 0x3000
}

pub fn is_white_space_exec(c: char) -> (r: bool)
    ensures
        r == is_white_space(c),
{
    let u = c as u32;
    (0x9 <= u && u <= 0xD) || u == 0x20 || u == 0x85 || u == 0xA0 || u == 0x1680 || (0x2000 <= u
        && u <= 0x200A) || u == 0x2028 || u == 0x2029 || u == 0x202F || u == 0x205F || u == 0x3000
}

/// `s` with every character satisfying the White_Space property removed.
pub open spec fn without_white_space(s: Seq<char>) -> Seq<char> {
    s.filter(|c: char| !is_white_space(c))
}

/// `str::trim`: `s` without leading and trailing White_Space characters.
pub open spec fn trimmed(s: Seq<char>) -> Seq<char> {
    let lead = leading_ws(s);
    let t = s.skip(lead);
    t.take(t.len() - trailing_ws(t))
}

/// Number of leading White_Space characters.
pub open spec fn leading_ws(s: Seq<char>) -> int
    decreases s.len(),
{
    if s.len() > 0 && is_white_space(s[0]) {
        1 + leading_ws(s.drop_first())
    } else {
        0
    }
}

/// Number of trailing White_Space characters.
pub open spec fn trailing_ws(s: Seq<char>) -> int
    decreases s.len(),
{
    if s.len() > 0 && is_white_space(s.last()) {
        1 + trailing_ws(s.drop_last())
    } else {
        0
    }
}

/// First index of a character equal to `a` or `b`.
pub open spec fn find_either(s: Seq<char>, a: char, b: char) -> Option<int>
    decreases s.len(),
{
    if s.len() == 0 {
        None
    } else if s[0] == a || s[0] == b {
        Some(0)
    } else {
        match find_either(s.drop_first(), a, b) {
            Some(i) => Some(i + 1),
            None => None,
        }
    }
}

/// `str::split` on the characters `a` and `b`: the pieces between separators, including
/// empty ones (an empty string is one empty piece).
pub open spec fn split_either(s: Seq<char>, a: char, b: char) -> Seq<Seq<char>>
    decreases s.len(),
{
    match find_either(s, a, b) {
        Some(i) => if 0 <= i < s.len() {
            seq![s.take(i)] + split_either(s.skip(i + 1), a, b)
        } else {
            seq![s]
        },
        None => seq![s],
    }
}

proof fn lemma_find_either_bounds(s: Seq<char>, a: char, b: char)
    ensures
        match find_either(s, a, b) {
            Some(i) => 0 <= i < s.len() && (s[i] == a || s[i] == b) && forall|j: int|
                0 <= j < i ==> s[j] != a && s[j] != b,
            None => forall|j: int| 0 <= j < s.len() ==> s[j] != a && s[j] != b,
        },
    decreases s.len(),
{
    if s.len() > 0 {
        lemma_find_either_bounds(s.drop_first(), a, b);
        if !(s[0] == a || s[0] == b) {
            match find_either(s.drop_first(), a, b) {
                Some(i) => {
                    assert forall|j: int| 0 <= j < i + 1 implies s[j] != a && s[j] != b by {
                        if j > 0 {
                            assert(s[j] == s.drop_first()[j - 1]);
                        }
                    }
                },
                None => {
                    assert forall|j: int| 0 <= j < s.len() implies s[j] != a && s[j] != b by {
                        if j > 0 {
                            assert(s[j] == s.drop_first()[j - 1]);
                        }
                    }
                },
            }
        }
    }
}

/// The pieces of `chars[from..]` split on `a` or `b`, as `(start, end)` index pairs.
pub fn split_either_exec(chars: &Vec<char>, a: char, b: char) -> (r: Vec<String>)
    ensures
        r@.map_values(|p: String| p@) == split_either(chars@, a, b),
{
    let mut out: Vec<String> = Vec::new();
    let mut cur = String::new();
    let mut start: usize = 0;
    let mut i: usize = 0;
    let n = chars.len();
    assert(chars@.skip(0) =~= chars@);
    while i < n
        invariant
            n == chars.len(),
            start <= i <= n,
            cur@ == chars@.subrange(start as int, i as int),
            forall|j: int| start <= j < i ==> chars@[j] != a && chars@[j] != b,
            out@.map_values(|p: String| p@) + split_either(chars@.skip(start as int), a, b)
                == split_either(chars@, a, b),
        decreases n - i,
    {
        let c = chars[i];
        let ghost rest = chars@.skip(start as int);
        if c == a || c == b {
            proof {
                lemma_find_either_bounds(rest, a, b);
                assert(rest[i - start] == c);
                assert forall|j: int| 0 <= j < i - start implies rest[j] != a && rest[j] != b by {
                    assert(rest[j] == chars@[start + j]);
                }
                if find_either(rest, a, b) != Some(i - start) {
                    let k = find_either(rest, a, b).unwrap();
                    if k < i - start {
                        assert(rest[k] == chars@[start + k]);
                    }
                }
                assert(find_either(rest, a, b) == Some(i - start));
                assert(rest.take(i - start) =~= cur@);
                assert(rest.skip(i - start + 1) =~= chars@.skip(i + 1));
            }
            let ghost before = out@.map_values(|p: String| p@);
            let ghost pv = cur@;
            let piece = cur;
            out.push(piece);
            cur = String::new();
            i = i + 1;
            start = i;
            assert(out@.map_values(|p: String| p@) =~= before.push(pv));
            assert(out@.map_values(|p: String| p@) + split_either(chars@.skip(start as int), a, b)
                =~= split_either(chars@, a, b));
        } else {
            cur.push(c);
            i = i + 1;
            assert(cur@ =~= chars@.subrange(start as int, i as int));
        }
    }
    proof {
        let rest = chars@.skip(start as int);
        lemma_find_either_bounds(rest, a, b);
        assert forall|j: int| 0 <= j < rest.len() implies rest[j] != a && rest[j] != b by {
            assert(rest[j] == chars@[start + j]);
        }
        if find_either(rest, a, b) is Some {
            let k = find_either(rest, a, b).unwrap();
            assert(rest[k] == chars@[start + k]);
        }
        assert(rest =~= cur@);
    }
    let ghost before = out@.map_values(|p: String| p@);
    out.push(cur);
    assert(out@.map_values(|p: String| p@) =~= before.push(cur@));
    assert(out@.map_values(|p: String| p@) =~= split_either(chars@, a, b));
    out
}

proof fn lemma_leading_ws_step(s: Seq<char>, i: int)
    requires
        0 <= i < s.len(),
        is_white_space(s[i]),
    ensures
        leading_ws(s.skip(i)) == 1 + leading_ws(s.skip(i + 1)),
{
    assert(s.skip(i).drop_first() =~= s.skip(i + 1));
}

proof fn lemma_trailing_ws_step(s: Seq<char>, j: int)
    requires
        0 < j <= s.len(),
        is_white_space(s[j - 1]),
    ensures
        trailing_ws(s.take(j)) == 1 + trailing_ws(s.take(j - 1)),
{
    assert(s.take(j).drop_last() =~= s.take(j - 1));
}

/// `str::trim`: the text without leading and trailing White_Space characters.
pub fn trim_exec(s: &str) -> (r: String)
    ensures
        r@ == trimmed(s@),
{
    let v = chars_of(s);
    let n = v.len();
    let mut i: usize = 0;
    assert(v@.skip(0) =~= v@);
    while i < n && is_white_space_exec(v[i])
        invariant
            i <= n == v.len(),
            leading_ws(v@) == i + leading_ws(v@.skip(i as int)),
        decreases n - i,
    {
        proof {
            lemma_leading_ws_step(v@, i as int);
        }
        i = i + 1;
    }
    let ghost t = v@.skip(i as int);
    proof {
        if i < n {
            assert(t[0] == v@[i as int]);
        }
        assert(leading_ws(t) == 0);
    }
    let mut j: usize = n;
    assert(t.take(t.len() as int) =~= t);
    while j > i && is_white_space_exec(v[j - 1])
        invariant
            i <= j <= n == v.len(),
            t == v@.skip(i as int),
            trailing_ws(t) == (n - j) + trailing_ws(t.take(j - i)),
        decreases j,
    {
        proof {
            assert(t[j - i - 1] == v@[j - 1]);
            lemma_trailing_ws_step(t, j - i);
        }
        j = j - 1;
    }
    proof {
        if j > i {
            assert(t.take(j - i).last() == v@[j - 1]);
        }
        assert(trailing_ws(t.take(j - i)) == 0);
        assert(t.take(t.len() - trailing_ws(t)) =~= v@.subrange(i as int, j as int));
    }
    crate::rune::string_of_range(&v, i, j)
}

/// The text with every `c` removed.
pub fn remove_char(s: &str, c: char) -> (r: String)
    ensures
        r@ == s@.filter(|x: char| x != c),
{
    let v = chars_of(s);
    let mut out = String::new();
    let mut k: usize = 0;
    while k < v.len()
        invariant
            k <= v.len(),
            v@ == s@,
            out@ == v@.take(k as int).filter(|x: char| x != c),
        decreases v.len() - k,
    {
        assert(v@.take(k + 1).drop_last() =~= v@.take(k as int));
        reveal_with_fuel(Seq::<_>::filter, 1);
        if v[k] != c {
            out.push(v[k]);
        }
        k = k + 1;
    }
    assert(v@.take(v.len() as int) =~= v@);
    out
}

/// The text with every White_Space character removed.
pub fn strip_white_space(s: &str) -> (r: String)
    ensures
        r@ == without_white_space(s@),
{
    let v = chars_of(s);
    let mut out = String::new();
    let mut k: usize = 0;
    while k < v.len()
        invariant
            k <= v.len(),
            v@ == s@,
            out@ == without_white_space(v@.take(k as int)),
        decreases v.len() - k,
    {
        assert(v@.take(k + 1).drop_last() =~= v@.take(k as int));
        reveal_with_fuel(Seq::<_>::filter, 1);
        if !is_white_space_exec(v[k]) {
            out.push(v[k]);
        }
        k = k + 1;
    }
    assert(v@.take(v.len() as int) =~= v@);
    out
}

/// `str::from_utf8`: `Some` exactly when the bytes are valid UTF-8, holding the text they
/// encode.
#[verifier::external_body]
pub fn utf8_text(bytes: &[u8]) -> (r: Option<String>)
    ensures
        match r {
            Some(s) => vstd::utf8::valid_utf8(bytes@) && s@ == vstd::utf8::decode_utf8(bytes@),
            None => !vstd::utf8::valid_utf8(bytes@),
        },
{
    match std::str::from_utf8(bytes) {
        Ok(s) => Some(s.to_string()),
        Err(_) => None,
    }
}

/// Lexicographic order of character sequences (code-point order, which is also the
/// byte order of their UTF-8 encodings, the order of `String`).
pub open spec fn seq_lt(a: Seq<char>, b: Seq<char>) -> bool
    decreases a.len(),
{
    if a.len() == 0 {
        b.len() > 0
    } else if b.len() == 0 {
        false
    } else if a[0] != b[0] {
        (a[0] as u32) < (b[0] as u32)
    } else {
        seq_lt(a.drop_first(), b.drop_first())
    }
}

/// Whether `a` sorts before `b`.
pub fn str_lt(a: &str, b: &str) -> (r: bool)
    ensures
        r == seq_lt(a@, b@),
{
    let x = chars_of(a);
    let y = chars_of(b);
    let mut i: usize = 0;
    assert(x@.skip(0) =~= x@);
    assert(y@.skip(0) =~= y@);
    while i < x.len() && i < y.len() && x[i] == y[i]
        invariant
            x@ == a@,
            y@ == b@,
            i <= x.len(),
            i <= y.len(),
            seq_lt(a@, b@) == seq_lt(x@.skip(i as int), y@.skip(i as int)),
        decreases x.len() - i,
    {
        assert(x@.skip(i as int).drop_first() =~= x@.skip(i + 1));
        assert(y@.skip(i as int).drop_first() =~= y@.skip(i + 1));
        i = i + 1;
    }
    if i == x.len() {
        i < y.len()
    } else if i == y.len() {
        false
    } else {
        assert(x@.skip(i as int)[0] == x@[i as int]);
        assert(y@.skip(i as int)[0] == y@[i as int]);
        (x[i] as u32) < (y[i] as u32)
    }
}

} // verus!
