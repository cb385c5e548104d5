//! Decimal numbers of a UDF document.
//!
//! Measurements (points, sizes, widths) are held as [`Num`]: an exact count of
//! billionths of a point. Attribute text is read digit by digit into that count, and the
//! renderers compute with it in exact integer arithmetic, rounding half away from zero
//! wherever a value is shown with fewer digits.
//!
//! Integers (`i32`, `i64` attributes) are read with the grammar of Rust's integer
//! `FromStr`: an optional `+` or `-`, then one or more ASCII digits, in range.

use vstd::prelude::*;
use crate::text::{chars_of, decimal, digit_char, digit_to_char, push_decimal};

verus! {

/// One billion: the number of [`Num`] units in a point.
pub const UNIT: i64 = 1_000_000_000;

/// A measurement held exactly as a count of billionths of a point.
#[derive(Clone, Copy, Debug, PartialEq, Eq, Structural)]
pub struct Num {
    pub nanos: i64,
}

impl Num {
    /// A whole number of points.
    pub fn points(p: i32) -> (r: Num)
        ensures
            r.nanos == p * 1_000_000_000,
    {
        Num { nanos: (p as i64) * UNIT }
    }
}

// ---------------------------------------------------------------------------
// Digits
// ---------------------------------------------------------------------------

pub open spec fn is_digit(c: char) -> bool {
    '0' <= c && c <= '9'
}

pub open spec fn all_digits(s: Seq<char>) -> bool {
    forall|i: int| 0 <= i < s.len() ==> #[trigger] is_digit(s[i])
}

/// The value of a string of decimal digits.
pub open spec fn digits_value(s: Seq<char>) -> nat
    decreases s.len(),
{
    if s.len() == 0 {
        0
    } else {
        digits_value(s.drop_last()) * 10 + ((s.last() as int - 48) as nat)
    }
}

pub open spec fn pow10(n: nat) -> nat
    decreases n,
{
    if n == 0 {
        1
    } else {
        10 * pow10((n - 1) as nat)
    }
}

/// The first index of `c` in `s`.
pub open spec fn find_char(s: Seq<char>, c: char) -> Option<int>
    decreases s.len(),
{
    if s.len() == 0 {
        None
    } else if s[0] == c {
        Some(0)
    } else {
        match find_char(s.drop_first(), c) {
            Some(i) => Some(i + 1),
            None => None,
        }
    }
}

/// An optional leading sign: `(negative, rest)`.
pub open spec fn split_sign(s: Seq<char>) -> (bool, Seq<char>) {
    if s.len() > 0 && (s[0] == '-' || s[0] == '+') {
        (s[0] == '-', s.drop_first())
    } else {
        (false, s)
    }
}

/// Rust's integer `FromStr` grammar: an optional sign and one or more digits; the signed
/// value, before any range check.
pub open spec fn spec_int_value(s: Seq<char>) -> Option<int> {
    let (neg, body) = split_sign(s);
    if body.len() > 0 && all_digits(body) {
        Some(if neg { -(digits_value(body) as int) } else { digits_value(body) as int })
    } else {
        None
    }
}

pub open spec fn spec_parse_i64(s: Seq<char>) -> Option<i64> {
    match spec_int_value(s) {
        Some(v) => if i64::MIN <= v <= i64::MAX { Some(v as i64) } else { None },
        None => None,
    }
}

pub open spec fn spec_parse_i32(s: Seq<char>) -> Option<i32> {
    match spec_int_value(s) {
        Some(v) => if i32::MIN <= v <= i32::MAX { Some(v as i32) } else { None },
        None => None,
    }
}

/// The integer and fraction digits of a decimal number (`digits[.digits]`, at least one
/// digit in all), without the sign.
pub open spec fn decimal_parts(body: Seq<char>) -> Option<(Seq<char>, Seq<char>)> {
    match find_char(body, '.') {
        Some(p) => {
            let ip = body.take(p);
            let fp = body.skip(p + 1);
            if all_digits(ip) && all_digits(fp) && ip.len() + fp.len() > 0 {
                Some((ip, fp))
            } else {
                None
            }
        },
        None => if body.len() > 0 && all_digits(body) {
            Some((body, Seq::empty()))
        } else {
            None
        },
    }
}

/// Whether `c` opens an exponent.
pub open spec fn is_exp_marker(c: char) -> bool {
    c == 'e' || c == 'E'
}

/// The first index of an exponent marker in `s`.
pub open spec fn find_exp_marker(s: Seq<char>) -> Option<int>
    decreases s.len(),
{
    if s.len() == 0 {
        None
    } else if is_exp_marker(s[0]) {
        Some(0)
    } else {
        match find_exp_marker(s.drop_first()) {
            Some(i) => Some(i + 1),
            None => None,
        }
    }
}

/// A number body split at its first exponent marker: the mantissa text and the
/// exponent (`0` without a marker). After the marker stands an optional sign and one
/// or more digits; any other text there denotes nothing.
pub open spec fn split_exponent(body: Seq<char>) -> Option<(Seq<char>, int)> {
    match find_exp_marker(body) {
        Some(p) => match spec_int_value(body.skip(p + 1)) {
            Some(e) => Some((body.take(p), e)),
            None => None,
        },
        None => Some((body, 0)),
    }
}

/// `m * 10^k` with any fraction dropped.
pub open spec fn shift_decimal(m: nat, k: int) -> nat {
    if k >= 0 {
        m * pow10(k as nat)
    } else {
        m / pow10((-k) as nat)
    }
}

/// The [`Num`] a decimal attribute denotes, read with the grammar of Rust's float
/// `FromStr` for finite numbers: `[+-]mantissa[(e|E)[+-]digits]`, the mantissa being
/// `digits[.digits]` (either digit run may be empty, not both). Its value is counted in
/// billionths with any further fraction dropped, when that count fits an `i64`. The
/// words `inf`, `infinity` and `NaN`, which a float also reads, name no finite
/// measurement and denote nothing here, as does any other text (blanks, commas).
pub open spec fn spec_parse_num(s: Seq<char>) -> Option<Num> {
    let (neg, body) = split_sign(s);
    match split_exponent(body) {
        Some((mant, e)) => match decimal_parts(mant) {
            Some((ip, fp)) => {
                let mag = shift_decimal(digits_value(ip + fp), e + 9 - fp.len());
                if mag <= i64::MAX {
                    Some(Num { nanos: (if neg { -mag } else { mag as int }) as i64 })
                } else {
                    None
                }
            },
            None => None,
        },
        None => None,
    }
}

pub proof fn lemma_digits_value_push(s: Seq<char>, c: char)
    ensures
        digits_value(s.push(c)) == digits_value(s) * 10 + ((c as int - 48) as nat),
{
    assert(s.push(c).drop_last() =~= s);
}

proof fn lemma_pow10_positive(n: nat)
    ensures
        pow10(n) >= 1,
    decreases n,
{
    if n > 0 {
        lemma_pow10_positive((n - 1) as nat);
    }
}

/// Exec form of `find_char` on a character vector, from `from` on.
pub fn find_char_from(v: &Vec<char>, from: usize, c: char) -> (r: Option<usize>)
    requires
        from <= v.len(),
    ensures
        match r {
            Some(i) => find_char(v@.skip(from as int), c) == Some(i - from) && from <= i < v.len(),
            None => find_char(v@.skip(from as int), c) is None,
        },
    decreases v.len() - from,
{
    if from == v.len() {
        return None;
    }
    assert(v@.skip(from as int)[0] == v@[from as int]);
    assert(v@.skip(from as int).drop_first() =~= v@.skip(from + 1));
    if v[from] == c {
        Some(from)
    } else {
        find_char_from(v, from + 1, c)
    }
}

/// Scans `v[from..to]`: `None` if some character is not a digit, else the value capped
/// just above `cap` (any value above `cap` is reported as `cap + 1`).
fn digits_capped(v: &Vec<char>, from: usize, to: usize, cap: u128) -> (r: Option<u128>)
    requires
        from <= to <= v.len(),
        cap < u128::MAX / 16,
    ensures
        match r {
            Some(x) => all_digits(v@.subrange(from as int, to as int)) && (if digits_value(
                v@.subrange(from as int, to as int),
            ) <= cap {
                x == digits_value(v@.subrange(from as int, to as int))
            } else {
                x == cap + 1
            }),
            None => !all_digits(v@.subrange(from as int, to as int)),
        },
{
    let mut acc: u128 = 0;
    let mut i = from;
    while i < to
        invariant
            from <= i <= to <= v.len(),
            cap < u128::MAX / 16,
            all_digits(v@.subrange(from as int, i as int)),
            if digits_value(v@.subrange(from as int, i as int)) <= cap {
                acc == digits_value(v@.subrange(from as int, i as int))
            } else {
                acc == cap + 1
            },
        decreases to - i,
    {
        let c = v[i];
        let ghost prev = v@.subrange(from as int, i as int);
        let ghost next = v@.subrange(from as int, i + 1);
        assert(next =~= prev.push(c));
        if !('0' <= c && c <= '9') {
            assert(!is_digit(next[i - from]));
            proof {
                assert(!all_digits(v@.subrange(from as int, to as int))) by {
                    assert(v@.subrange(from as int, to as int)[i - from] == c);
                }
            }
            return None;
        }
        proof {
            lemma_digits_value_push(prev, c);
        }
        let d = (c as u32 - 48) as u128;
        if acc > cap {
            acc = cap + 1;
        } else {
            let n = acc * 10 + d;
            acc = if n > cap { cap + 1 } else { n };
        }
        i = i + 1;
        assert(all_digits(next)) by {
            assert forall|j: int| 0 <= j < next.len() implies #[trigger] is_digit(next[j]) by {
                if j < prev.len() {
                    assert(next[j] == prev[j]);
                }
            }
        }
    }
    Some(acc)
}

/// The start of the unsigned part: 1 after a leading sign, else 0.
fn sign_end(v: &Vec<char>) -> (r: (bool, usize))
    ensures
        r.1 <= 1,
        r.1 <= v.len(),
        r.0 == split_sign(v@).0,
        v@.subrange(r.1 as int, v.len() as int) == split_sign(v@).1,
{
    if v.len() > 0 && (v[0] == '-' || v[0] == '+') {
        assert(v@.subrange(1, v.len() as int) =~= v@.drop_first());
        (v[0] == '-', 1)
    } else {
        assert(v@.subrange(0, v.len() as int) =~= v@);
        (false, 0)
    }
}

/// Signed value of `[+-]digits` capped to `[-(2^63 + 1), 2^63 + 1]`.
fn int_value_capped(s: &str) -> (r: Option<i128>)
    ensures
        match r {
            Some(x) => spec_int_value(s@) is Some && (if i64::MIN <= spec_int_value(s@).unwrap()
                <= i64::MAX {
                x == spec_int_value(s@).unwrap()
            } else {
                x < i64::MIN || x > i64::MAX
            }),
            None => spec_int_value(s@) is None,
        },
{
    let v = chars_of(s);
    let (neg, b) = sign_end(&v);
    if b == v.len() {
        return None;
    }
    let cap: u128 = 0x8000_0000_0000_0000;
    match digits_capped(&v, b, v.len(), cap) {
        Some(x) => {
            if neg {
                Some(-(x as i128))
            } else {
                Some(x as i128)
            }
        },
        None => None,
    }
}

/// Rust's `i64` `FromStr`: `None` when the text is not an in-range integer.
pub fn parse_i64(s: &str) -> (r: Option<i64>)
    ensures
        r == spec_parse_i64(s@),
{
    match int_value_capped(s) {
        Some(x) => if i64::MIN as i128 <= x && x <= i64::MAX as i128 {
            Some(x as i64)
        } else {
            None
        },
        None => None,
    }
}

/// Rust's `i32` `FromStr`: `None` when the text is not an in-range integer.
pub fn parse_i32(s: &str) -> (r: Option<i32>)
    ensures
        r == spec_parse_i32(s@),
{
    match int_value_capped(s) {
        Some(x) => if i32::MIN as i128 <= x && x <= i32::MAX as i128 {
            Some(x as i32)
        } else {
            None
        },
        None => None,
    }
}

/// The integer end and fraction start of a decimal body starting at `b`: the first `.`
/// splits them; without one, the whole body is the integer part.
fn split_at_dot(v: &Vec<char>, b: usize) -> (r: (usize, usize))
    requires
        b <= v.len(),
    ensures
        b <= r.0 <= r.1 <= v.len(),
        match find_char(v@.subrange(b as int, v.len() as int), '.') {
            Some(p) => r.0 == b + p && r.1 == r.0 + 1,
            None => r.0 == v.len() && r.1 == v.len(),
        },
{
    let n = v.len();
    assert(v@.skip(b as int) =~= v@.subrange(b as int, n as int));
    match find_char_from(v, b, '.') {
        Some(p) => (p, p + 1),
        None => (n, n),
    }
}

/// The first exponent marker in `v[from..]`.
fn find_exp_from(v: &Vec<char>, from: usize) -> (r: Option<usize>)
    requires
        from <= v.len(),
    ensures
        match r {
            Some(i) => find_exp_marker(v@.skip(from as int)) == Some(i - from) && from <= i
                < v.len(),
            None => find_exp_marker(v@.skip(from as int)) is None,
        },
    decreases v.len() - from,
{
    if from == v.len() {
        return None;
    }
    assert(v@.skip(from as int)[0] == v@[from as int]);
    assert(v@.skip(from as int).drop_first() =~= v@.skip(from + 1));
    if v[from] == 'e' || v[from] == 'E' {
        Some(from)
    } else {
        find_exp_from(v, from + 1)
    }
}

/// Appends `src[from..to]` to `dst`.
fn push_range(dst: &mut Vec<char>, src: &Vec<char>, from: usize, to: usize)
    requires
        from <= to <= src.len(),
    ensures
        final(dst)@ == old(dst)@ + src@.subrange(from as int, to as int),
{
    let ghost start = dst@;
    let mut i = from;
    while i < to
        invariant
            from <= i <= to <= src.len(),
            dst@ == start + src@.subrange(from as int, i as int),
        decreases to - i,
    {
        dst.push(src[i]);
        assert(src@.subrange(from as int, i + 1) =~= src@.subrange(from as int, i as int).push(
            src@[i as int],
        ));
        i = i + 1;
    }
}

/// An exponent beyond this bound, in either direction, puts every digit of any text
/// far past the places an `i64` count of billionths can hold.
const EXP_CAP: i128 = 0x1_0000_0000_0000_0000_0000;

/// An exponent clamped to `EXP_CAP + 1` in magnitude.
spec fn clamp_exponent(e: int) -> int {
    if e > EXP_CAP {
        EXP_CAP + 1
    } else if e < -EXP_CAP {
        -(EXP_CAP + 1)
    } else {
        e
    }
}

/// The exponent text `v[from..]` (`[+-]digits`), clamped by [`clamp_exponent`].
fn exponent_clamped(v: &Vec<char>, from: usize) -> (r: Option<i128>)
    requires
        from <= v.len(),
    ensures
        match r {
            Some(x) => spec_int_value(v@.skip(from as int)) is Some && x == clamp_exponent(
                spec_int_value(v@.skip(from as int)).unwrap(),
            ),
            None => spec_int_value(v@.skip(from as int)) is None,
        },
{
    let n = v.len();
    let ghost t = v@.skip(from as int);
    let (neg, start) = if from < n && (v[from] == '-' || v[from] == '+') {
        (v[from] == '-', from + 1)
    } else {
        (false, from)
    };
    assert(v@.subrange(start as int, n as int) =~= split_sign(t).1);
    assert(neg == split_sign(t).0);
    if start == n {
        return None;
    }
    match digits_capped(v, start, n, EXP_CAP as u128) {
        Some(x) => if neg {
            Some(-(x as i128))
        } else {
            Some(x as i128)
        },
        None => None,
    }
}

/// `digits_value(d) * 10^k` with any fraction dropped, when it fits an `i64`.
fn shift_digits(d: &Vec<char>, k: i128) -> (r: Option<i64>)
    requires
        all_digits(d@),
        -0x1_0000_0000_0000_0000_0000_0000 < k < 0x1_0000_0000_0000_0000_0000_0000,
    ensures
        match r {
            Some(x) => x >= 0 && x == shift_decimal(digits_value(d@), k as int),
            None => shift_decimal(digits_value(d@), k as int) > i64::MAX,
        },
{
    let n = d.len();
    let ghost m = digits_value(d@);
    let cap: u128 = 0x7fff_ffff_ffff_ffff;
    proof {
        lemma_pow10_values();
    }
    if k >= 0 {
        assert(d@.subrange(0, n as int) =~= d@);
        let x = match digits_capped(d, 0, n, cap) {
            Some(x) => x,
            None => {
                return None;
            },
        };
        if x == 0 {
            assert(m * pow10(k as nat) == 0) by (nonlinear_arith)
                requires
                    m == 0,
            ;
            return Some(0);
        }
        if k > 18 {
            proof {
                lemma_pow10_monotone(19, k as nat);
                let p = pow10(k as nat);
                assert(m * p >= p) by (nonlinear_arith)
                    requires
                        m >= 1,
                        p >= 0,
                ;
            }
            return None;
        }
        if x > cap {
            proof {
                lemma_pow10_positive(k as nat);
                let p = pow10(k as nat);
                assert(m * p >= m) by (nonlinear_arith)
                    requires
                        m >= 0,
                        p >= 1,
                ;
            }
            return None;
        }
        let p = pow10_exec(k as usize);
        assert(x * p <= 0x7fff_ffff_ffff_ffff * 1_000_000_000_000_000_000) by (nonlinear_arith)
            requires
                x <= 0x7fff_ffff_ffff_ffff,
                p <= 1_000_000_000_000_000_000,
        ;
        let prod = x * p;
        if prod > cap {
            return None;
        }
        Some(prod as i64)
    } else {
        let j = -k;
        if j >= n as i128 {
            proof {
                lemma_digits_below_pow10(d@);
                lemma_pow10_monotone(n as nat, j as nat);
                let p = pow10(j as nat);
                assert(m / p == 0) by (nonlinear_arith)
                    requires
                        0 <= m < p,
                ;
            }
            return Some(0);
        }
        let t = n - j as usize;
        proof {
            lemma_div_pow10_take(d@, j as nat);
            assert(d@.subrange(0, t as int) =~= d@.take(t as int));
        }
        let x = match digits_capped(d, 0, t, cap) {
            Some(x) => x,
            None => {
                return None;
            },
        };
        if x > cap {
            return None;
        }
        Some(x as i64)
    }
}

/// The [`Num`] a decimal attribute denotes (see [`spec_parse_num`]).
pub fn parse_num(s: &str) -> (r: Option<Num>)
    ensures
        r == spec_parse_num(s@),
{
    let v = chars_of(s);
    let n = v.len();
    let (neg, b) = sign_end(&v);
    let ghost body = v@.subrange(b as int, n as int);
    assert(v@.skip(b as int) =~= body);
    let (m_end, e) = match find_exp_from(&v, b) {
        Some(p) => {
            assert(body.skip(p - b + 1) =~= v@.skip(p + 1));
            match exponent_clamped(&v, p + 1) {
                Some(x) => (p, x),
                None => {
                    return None;
                },
            }
        },
        None => (n, 0i128),
    };
    let ghost mant = v@.subrange(b as int, m_end as int);
    let ghost e_true: int = split_exponent(body).unwrap().1;
    proof {
        match find_exp_marker(body) {
            Some(q) => {
                assert(body.take(q) =~= mant);
            },
            None => {
                assert(mant =~= body);
            },
        }
        assert(split_exponent(body) == Some((mant, e_true)));
        assert(e == clamp_exponent(e_true));
    }
    let mut mv: Vec<char> = Vec::new();
    push_range(&mut mv, &v, b, m_end);
    assert(mv@ =~= mant);
    let mn = mv.len();
    let (ip_end, fp_start) = split_at_dot(&mv, 0);
    let ghost ip_seq = mv@.subrange(0, ip_end as int);
    let ghost fp_seq = mv@.subrange(fp_start as int, mn as int);
    proof {
        assert(mv@.subrange(0, mn as int) =~= mant);
        match find_char(mant, '.') {
            Some(p) => {
                assert(mant.take(p) =~= ip_seq);
                assert(mant.skip(p + 1) =~= fp_seq);
            },
            None => {
                assert(ip_seq =~= mant);
                assert(fp_seq =~= Seq::<char>::empty());
            },
        }
    }
    if ip_end + (mn - fp_start) == 0 {
        return None;
    }
    if !digits_all(&mv, 0, ip_end) {
        return None;
    }
    if !digits_all(&mv, fp_start, mn) {
        return None;
    }
    assert(decimal_parts(mant) == Some((ip_seq, fp_seq)));
    let mut d: Vec<char> = Vec::new();
    push_range(&mut d, &mv, 0, ip_end);
    push_range(&mut d, &mv, fp_start, mn);
    assert(d@ =~= ip_seq + fp_seq);
    assert(all_digits(d@)) by {
        assert forall|i: int| 0 <= i < d@.len() implies #[trigger] is_digit(d@[i]) by {
            if i < ip_seq.len() {
                assert(d@[i] == ip_seq[i]);
            } else {
                assert(d@[i] == fp_seq[i - ip_seq.len()]);
            }
        }
    }
    let fl = mn - fp_start;
    let k: i128 = e + 9 - fl as i128;
    let ghost k_true: int = e_true + 9 - fl;
    proof {
        lemma_digits_below_pow10(d@);
        if e_true > EXP_CAP || e_true < -EXP_CAP {
            lemma_shift_far(digits_value(d@), d@.len(), k as int, k_true);
        }
    }
    let mag = match shift_digits(&d, k) {
        Some(x) => x,
        None => {
            return None;
        },
    };
    Some(Num { nanos: if neg { -mag } else { mag } })
}

/// Whether `v[from..to]` is all digits.
fn digits_all(v: &Vec<char>, from: usize, to: usize) -> (r: bool)
    requires
        from <= to <= v.len(),
    ensures
        r == all_digits(v@.subrange(from as int, to as int)),
{
    let mut i = from;
    while i < to
        invariant
            from <= i <= to <= v.len(),
            all_digits(v@.subrange(from as int, i as int)),
        decreases to - i,
    {
        let c = v[i];
        if !('0' <= c && c <= '9') {
            assert(v@.subrange(from as int, to as int)[i - from] == c);
            assert(!is_digit(v@.subrange(from as int, to as int)[i - from]));
            return false;
        }
        i = i + 1;
        assert forall|j: int| 0 <= j < i - from implies #[trigger] is_digit(
            v@.subrange(from as int, i as int)[j],
        ) by {
            if j < i - 1 - from {
                assert(v@.subrange(from as int, i as int)[j] == v@.subrange(from as int, i - 1)[j]);
            }
        }
    }
    true
}

proof fn lemma_pow10_values()
    ensures
        pow10(0) == 1,
        pow10(17) == 100_000_000_000_000_000,
        pow10(18) == 1_000_000_000_000_000_000,
        pow10(19) == 10_000_000_000_000_000_000,
{
    reveal_with_fuel(pow10, 20);
}

proof fn lemma_pow10_monotone(a: nat, b: nat)
    requires
        a <= b,
    ensures
        pow10(a) <= pow10(b),
    decreases b,
{
    if a < b {
        lemma_pow10_monotone(a, (b - 1) as nat);
    }
}

/// Dropping the last `j` digits divides by `10^j`.
proof fn lemma_div_pow10_take(s: Seq<char>, j: nat)
    requires
        all_digits(s),
        j <= s.len(),
    ensures
        digits_value(s) / pow10(j) == digits_value(s.take(s.len() - j)),
    decreases j,
{
    if j == 0 {
        assert(s.take(s.len() as int) =~= s);
        assert(pow10(0) == 1);
        assert(digits_value(s) / 1 == digits_value(s)) by (nonlinear_arith);
    } else {
        let t = s.drop_last();
        assert(all_digits(t)) by {
            assert forall|i: int| 0 <= i < t.len() implies #[trigger] is_digit(t[i]) by {
                assert(t[i] == s[i]);
            }
        }
        lemma_div_pow10_take(t, (j - 1) as nat);
        assert(t.take(t.len() - (j - 1)) =~= s.take(s.len() - j));
        assert(is_digit(s[s.len() - 1]));
        let a = digits_value(t);
        let c = (s.last() as int - 48) as nat;
        assert(digits_value(s) == a * 10 + c);
        assert((a * 10 + c) / 10 == a) by (nonlinear_arith)
            requires
                0 <= c < 10,
                a >= 0,
        ;
        lemma_pow10_positive((j - 1) as nat);
        vstd::arithmetic::div_mod::lemma_div_denominator(
            digits_value(s) as int,
            10,
            pow10((j - 1) as nat) as int,
        );
        assert(pow10(j) == 10 * pow10((j - 1) as nat));
    }
}

/// Far enough from the decimal point, only whether the digits are all zero matters:
/// two shifts both past 18 places up, or both past every digit down, agree on whether
/// they fit an `i64`, and on the value when they do.
proof fn lemma_shift_far(m: nat, len: nat, k1: int, k2: int)
    requires
        m < pow10(len),
        (k1 >= 19 && k2 >= 19) || (k1 <= -len && k2 <= -len),
    ensures
        (shift_decimal(m, k1) <= i64::MAX) == (shift_decimal(m, k2) <= i64::MAX),
        shift_decimal(m, k1) <= i64::MAX ==> shift_decimal(m, k1) == shift_decimal(m, k2),
{
    lemma_pow10_values();
    if k1 >= 19 {
        lemma_pow10_monotone(19, k1 as nat);
        lemma_pow10_monotone(19, k2 as nat);
        let p1 = pow10(k1 as nat);
        let p2 = pow10(k2 as nat);
        if m >= 1 {
            assert(m * p1 >= p1 && m * p2 >= p2) by (nonlinear_arith)
                requires
                    m >= 1,
                    p1 >= 0,
                    p2 >= 0,
            ;
        } else {
            assert(m * p1 == 0 && m * p2 == 0) by (nonlinear_arith)
                requires
                    m == 0,
            ;
        }
    } else {
        lemma_pow10_monotone(len, (-k1) as nat);
        lemma_pow10_monotone(len, (-k2) as nat);
        let p1 = pow10((-k1) as nat);
        let p2 = pow10((-k2) as nat);
        assert(m / p1 == 0 && m / p2 == 0) by (nonlinear_arith)
            requires
                0 <= m < p1,
                m < p2,
        ;
    }
}

/// A string of `k` digits is worth less than `10^k`.
proof fn lemma_digits_below_pow10(s: Seq<char>)
    requires
        all_digits(s),
    ensures
        digits_value(s) < pow10(s.len()),
    decreases s.len(),
{
    if s.len() > 0 {
        assert(all_digits(s.drop_last())) by {
            assert forall|j: int| 0 <= j < s.drop_last().len() implies #[trigger] is_digit(
                s.drop_last()[j],
            ) by {
                assert(s.drop_last()[j] == s[j]);
            }
        }
        lemma_digits_below_pow10(s.drop_last());
        assert(is_digit(s[s.len() - 1]));
    }
}

fn pow10_exec(n: usize) -> (r: u128)
    requires
        n <= 18,
    ensures
        r == pow10(n as nat),
        r <= 1_000_000_000_000_000_000,
{
    let mut r: u128 = 1;
    let mut i: usize = 0;
    proof {
        lemma_pow10_values();
    }
    while i < n
        invariant
            i <= n <= 18,
            r == pow10(i as nat),
        decreases n - i,
    {
        proof {
            lemma_pow10_monotone(i as nat, 17);
            lemma_pow10_values();
            assert(pow10((i + 1) as nat) == 10 * pow10(i as nat));
        }
        r = r * 10;
        i = i + 1;
    }
    proof {
        lemma_pow10_monotone(n as nat, 18);
        lemma_pow10_values();
    }
    r
}

// ---------------------------------------------------------------------------
// Rounding and display
// ---------------------------------------------------------------------------

/// `n / d` rounded half away from zero (`d > 0`).
pub open spec fn round_div(n: int, d: int) -> int {
    if n >= 0 {
        (2 * n + d) / (2 * d)
    } else {
        -((2 * (-n) + d) / (2 * d))
    }
}

/// A bound on the billionth counts that the renderers combine.
pub open spec fn wide(v: int) -> bool {
    -0x100_0000_0000_0000_0000_0000_0000_0000 <= v <= 0x100_0000_0000_0000_0000_0000_0000_0000
}

/// `n / d` rounded half away from zero.
pub fn round_div_exec(n: i128, d: i128) -> (r: i128)
    requires
        wide(n as int),
        0 < d <= 0x100_0000_0000_0000_0000_0000_0000_0000,
    ensures
        r == round_div(n as int, d as int),
{
    if n >= 0 {
        (2 * n + d) / (2 * d)
    } else {
        -((2 * (-n) + d) / (2 * d))
    }
}

/// How a point value (in billionths) is written in CSS: rounded to hundredths, then
/// written like Rust's `Display` of that value: no trailing zeros, no fraction when whole,
/// and `-0` for a negative value that rounds to zero.
#[verifier::opaque]
pub open spec fn num_text(v: int) -> Seq<char> {
    let h = round_div(v, 10_000_000);
    let a = if h < 0 { -h } else { h };
    let sign = if v < 0 { seq!['-'] } else { Seq::<char>::empty() };
    let whole = decimal((a / 100) as nat);
    let f = a % 100;
    let frac = if f == 0 {
        Seq::<char>::empty()
    } else if f % 10 == 0 {
        seq!['.', digit_char(f / 10)]
    } else {
        seq!['.', digit_char(f / 10), digit_char(f % 10)]
    };
    sign + whole + frac
}

/// Appends [`num_text`] of a value in billionths of a point.
pub fn push_num(out: &mut String, v: i128)
    requires
        wide(v as int),
    ensures
        final(out)@ == old(out)@ + num_text(v as int),
{
    proof {
        reveal(num_text);
    }
    let h = round_div_exec(v, 10_000_000);
    let a: i128 = if h < 0 { -h } else { h };
    if v < 0 {
        out.push('-');
    }
    push_decimal(out, (a / 100) as u128);
    let f = a % 100;
    if f != 0 {
        out.push('.');
        out.push(digit_to_char((f / 10) as u8));
        if f % 10 != 0 {
            out.push(digit_to_char((f % 10) as u8));
        }
    }
    assert(final(out)@ =~= old(out)@ + num_text(v as int));
}

/// Points to twips (`round(points * 20)`).
pub open spec fn spec_twips(v: int) -> int {
    round_div(v, 50_000_000)
}

pub fn twips(v: i128) -> (r: i128)
    requires
        wide(v as int),
    ensures
        r == spec_twips(v as int),
{
    round_div_exec(v, 50_000_000)
}

/// Font size in half-points (`round(points * 2)`), or 24 (12pt) when not positive.
pub open spec fn spec_half_points(v: int) -> int {
    let hp = round_div(v, 500_000_000);
    if hp <= 0 {
        24
    } else {
        hp
    }
}

pub fn half_points(v: Num) -> (r: i128)
    ensures
        r == spec_half_points(v.nanos as int),
{
    let hp = round_div_exec(v.nanos as i128, 500_000_000);
    if hp <= 0 {
        24
    } else {
        hp
    }
}

/// Saturating conversion to `i64`, as a float-to-integer `as` cast does.
pub open spec fn saturate_i64(v: int) -> int {
    if v > i64::MAX {
        i64::MAX as int
    } else if v < i64::MIN {
        i64::MIN as int
    } else {
        v
    }
}

pub fn saturate_i64_exec(v: i128) -> (r: i64)
    ensures
        r == saturate_i64(v as int),
{
    if v > i64::MAX as i128 {
        i64::MAX
    } else if v < i64::MIN as i128 {
        i64::MIN
    } else {
        v as i64
    }
}

} // verus!
