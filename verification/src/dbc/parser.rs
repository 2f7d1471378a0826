//! DBC file parser.
//!
//! The grammar is read character by character. Positions are indices into
//! the text; each spec function below says what its parser consumes from a
//! position and what it yields, and each executable parser is proved to
//! return exactly that.
use vstd::prelude::*;

use std::collections::HashMap;

use crate::dbc::message::{DbcMessage, MessageView};
use crate::dbc::signal::{descriptions_view, ByteOrder, DbcSignal, SignalView};
use crate::text::{
    char_is_alphanumeric, digits_value, is_unicode_alphanumeric, text_of, trim, trim_bounds,
};

verus! {

broadcast use vstd::std_specs::hash::group_hash_axioms;

// ------------------------------------------------------------------
// Character classes and runs
// ------------------------------------------------------------------
/// Classes of characters the grammar skips runs of.
#[derive(Clone, Copy, PartialEq, Eq, Structural)]
pub enum CharClass {
    /// Space or tab.
    Blank,
    /// ASCII decimal digit.
    Digit,
    /// Unicode letter or digit, or underscore.
    Ident,
    /// Anything but line feed and carriage return.
    NotEol,
}

pub open spec fn in_class(c: char, k: CharClass) -> bool {
    match k {
        CharClass::Blank => c == ' ' || c == '\t',
        CharClass::Digit => '0' <= c && c <= '9',
        CharClass::Ident => is_unicode_alphanumeric(c) || c == '_',
        CharClass::NotEol => c != '\n' && c != '\r',
    }
}

/// End of the run of characters of class `k` that starts at `p`.
pub open spec fn skip_class(s: Seq<char>, p: int, k: CharClass) -> int
    decreases s.len() - p,
{
    if 0 <= p < s.len() && in_class(s[p], k) {
        skip_class(s, p + 1, k)
    } else {
        p
    }
}

pub proof fn lemma_skip_class_bounds(s: Seq<char>, p: int, k: CharClass)
    requires
        0 <= p <= s.len(),
    ensures
        p <= skip_class(s, p, k) <= s.len(),
        forall|i: int| p <= i < skip_class(s, p, k) ==> in_class(#[trigger] s[i], k),
        skip_class(s, p, k) < s.len() ==> !in_class(s[skip_class(s, p, k)], k),
    decreases s.len() - p,
{
    if p < s.len() && in_class(s[p], k) {
        lemma_skip_class_bounds(s, p + 1, k);
    }
}

fn char_in_class(c: char, k: CharClass) -> (b: bool)
    ensures
        b == in_class(c, k),
{
    match k {
        CharClass::Blank => c == ' ' || c == '\t',
        CharClass::Digit => '0' <= c && c <= '9',
        CharClass::Ident => char_is_alphanumeric(c) || c == '_',
        CharClass::NotEol => c != '\n' && c != '\r',
    }
}

/// Skips the run of characters of class `k` that starts at `p`.
pub fn skip_run(s: &[char], p: usize, k: CharClass) -> (q: usize)
    requires
        p <= s@.len(),
    ensures
        q == skip_class(s@, p as int, k),
        p <= q <= s@.len(),
        s@.len() <= usize::MAX,
{
    let mut q = p;
    while q < s.len() && char_in_class(s[q], k)
        invariant
            p <= q <= s@.len(),
            skip_class(s@, p as int, k) == skip_class(s@, q as int, k),
        decreases s@.len() - q,
    {
        q = q + 1;
    }
    q
}

/// Whether `s` holds `t` at position `p`.
pub open spec fn has_at(s: Seq<char>, p: int, t: Seq<char>) -> bool {
    0 <= p && p + t.len() <= s.len() && s.subrange(p, p + t.len()) == t
}

/// Whether `s` holds `t` at position `p`.
pub fn match_at(s: &[char], p: usize, t: &[char]) -> (b: bool)
    requires
        p <= s@.len(),
    ensures
        b == has_at(s@, p as int, t@),
{
    if t.len() > s.len() - p {
        return false;
    }
    crate::text::range_eq(s, p, p + t.len(), t)
}

/// Whether `s` holds character `c` at position `p`.
pub open spec fn char_at(s: Seq<char>, p: int, c: char) -> bool {
    0 <= p < s.len() && s[p] == c
}

fn is_char_at(s: &[char], p: usize, c: char) -> (b: bool)
    ensures
        b == char_at(s@, p as int, c),
        s@.len() <= usize::MAX,
{
    p < s.len() && s[p] == c
}

/// Position after an optional line ending (`\n` or `\r\n`) at `p`.
pub open spec fn skip_line_ending(s: Seq<char>, p: int) -> int {
    if char_at(s, p, '\n') {
        p + 1
    } else if char_at(s, p, '\r') && char_at(s, p + 1, '\n') {
        p + 2
    } else {
        p
    }
}

fn line_ending(s: &[char], p: usize) -> (q: usize)
    requires
        p <= s@.len(),
    ensures
        q == skip_line_ending(s@, p as int),
        p <= q <= s@.len(),
{
    if is_char_at(s, p, '\n') {
        p + 1
    } else if is_char_at(s, p, '\r') && is_char_at(s, p + 1, '\n') {
        p + 2
    } else {
        p
    }
}

// ------------------------------------------------------------------
// Numbers
// ------------------------------------------------------------------
/// A run of decimal digits as `str::parse` reads it, with 0 where the
/// value does not fit (`parse().unwrap_or(0)`).
pub open spec fn digits_or_zero(d: Seq<char>, max: nat) -> nat {
    if digits_value(d, 10) <= max {
        digits_value(d, 10)
    } else {
        0
    }
}

/// An unsigned decimal integer at `p`: at least one digit; its value,
/// 0 where it does not fit in `u64`, and the position after it.
pub open spec fn uint_at(s: Seq<char>, p: int) -> Option<(u64, int)> {
    let q = skip_class(s, p, CharClass::Digit);
    if q > p {
        Some((digits_or_zero(s.subrange(p, q), u64::MAX as nat) as u64, q))
    } else {
        None
    }
}

/// A decimal integer at `p`: an optional `-`, then at least one digit;
/// the magnitude is 0 where it does not fit in `i64`.
pub open spec fn int_at(s: Seq<char>, p: int) -> Option<(i64, int)> {
    let neg = char_at(s, p, '-');
    let d = if neg {
        p + 1
    } else {
        p
    };
    let q = skip_class(s, d, CharClass::Digit);
    if q > d {
        let v = digits_or_zero(s.subrange(d, q), i64::MAX as nat) as int;
        let signed = if neg {
            -v
        } else {
            v
        };
        Some((signed as i64, q))
    } else {
        None
    }
}

/// Reads a run of decimal digits `s[p..q]`, giving 0 where the value
/// exceeds `max`.
fn digits_to_int(s: &[char], p: usize, q: usize, max: u64) -> (v: u64)
    requires
        p <= q <= s@.len(),
        forall|i: int| p <= i < q ==> in_class(#[trigger] s@[i], CharClass::Digit),
    ensures
        v == digits_or_zero(s@.subrange(p as int, q as int), max as nat),
{
    let ghost d = s@.subrange(p as int, q as int);
    let r = crate::text::parse_uint(s, p, q, 10, max);
    assert(crate::text::unsigned_body(d) == d) by {
        if d.len() > 0 {
            assert(d[0] == s@[p as int]);
        }
    }
    assert(crate::text::all_radix_digits(d, 10)) by {
        assert forall|i: int| 0 <= i < d.len() implies crate::text::is_radix_digit(
            #[trigger] d[i],
            10,
        ) by {
            assert(d[i] == s@[p + i]);
        }
    }
    match r {
        Some(v) => v,
        None => 0,
    }
}

/// Reads an unsigned decimal integer at `p`.
pub fn parse_uint_at(s: &[char], p: usize) -> (r: Option<(u64, usize)>)
    requires
        p <= s@.len(),
    ensures
        match r {
            Some((v, q)) => uint_at(s@, p as int) == Some((v, q as int)) && q <= s@.len(),
            None => uint_at(s@, p as int) is None,
        },
{
    let q = skip_run(s, p, CharClass::Digit);
    if q == p {
        return None;
    }
    proof {
        lemma_skip_class_bounds(s@, p as int, CharClass::Digit);
    }
    let v = digits_to_int(s, p, q, u64::MAX);
    Some((v, q))
}

/// Reads a decimal integer with optional minus sign at `p`.
pub fn parse_int_at(s: &[char], p: usize) -> (r: Option<(i64, usize)>)
    requires
        p <= s@.len(),
    ensures
        match r {
            Some((v, q)) => int_at(s@, p as int) == Some((v, q as int)) && q <= s@.len(),
            None => int_at(s@, p as int) is None,
        },
{
    let neg = is_char_at(s, p, '-');
    let d = if neg {
        p + 1
    } else {
        p
    };
    let q = skip_run(s, d, CharClass::Digit);
    if q == d {
        return None;
    }
    proof {
        lemma_skip_class_bounds(s@, d as int, CharClass::Digit);
    }
    let v = digits_to_int(s, d, q, 0x7fff_ffff_ffff_ffff);
    let signed: i64 = if neg {
        -(v as i64)
    } else {
        v as i64
    };
    Some((signed, q))
}

/// Outcome of a parser that can fail softly (the caller may try
/// something else) or hard (the whole enclosing parse fails).
pub enum Parsed<T> {
    Done(T, int),
    Miss,
    Abort,
}

/// The end of a floating-point literal at `p` (after an optional sign:
/// digits with an optional fraction, or a fraction; then an optional
/// exponent, whose digits are mandatory once `e` or `E` is there), or
/// one of the words `nan`, `inf` in any letter case.
pub open spec fn number_at(s: Seq<char>, p: int) -> Parsed<()> {
    let a = if char_at(s, p, '+') || char_at(s, p, '-') {
        p + 1
    } else {
        p
    };
    let b = skip_class(s, a, CharClass::Digit);
    let mantissa_end: Option<int> = if b > a {
        if char_at(s, b, '.') {
            Some(skip_class(s, b + 1, CharClass::Digit))
        } else {
            Some(b)
        }
    } else if char_at(s, a, '.') && skip_class(s, a + 1, CharClass::Digit) > a + 1 {
        Some(skip_class(s, a + 1, CharClass::Digit))
    } else {
        None
    };
    match mantissa_end {
        Some(m) => {
            if char_at(s, m, 'e') || char_at(s, m, 'E') {
                let e = if char_at(s, m + 1, '+') || char_at(s, m + 1, '-') {
                    m + 2
                } else {
                    m + 1
                };
                let f = skip_class(s, e, CharClass::Digit);
                if f > e {
                    Parsed::Done((), f)
                } else {
                    Parsed::Abort
                }
            } else {
                Parsed::Done((), m)
            }
        },
        None => {
            if word_ci_at(s, p, seq!['n', 'a', 'n']) || word_ci_at(s, p, seq!['i', 'n', 'f']) {
                Parsed::Done((), p + 3)
            } else {
                Parsed::Miss
            }
        },
    }
}

/// ASCII lower case of a character.
pub open spec fn ascii_lower(c: char) -> char {
    if 'A' <= c && c <= 'Z' {
        ((c as u32) + 32) as char
    } else {
        c
    }
}

/// Whether `s` holds the lower-case word `w` at `p`, ignoring ASCII case.
pub open spec fn word_ci_at(s: Seq<char>, p: int, w: Seq<char>) -> bool {
    0 <= p && p + w.len() <= s.len() && forall|i: int|
        0 <= i < w.len() ==> ascii_lower(#[trigger] s[p + i]) == w[i]
}

fn lower(c: char) -> (r: char)
    ensures
        r == ascii_lower(c),
{
    if 'A' <= c && c <= 'Z' {
        ((c as u32 as u8) + 32) as char
    } else {
        c
    }
}

fn word_ci(s: &[char], p: usize, w0: char, w1: char, w2: char) -> (b: bool)
    ensures
        b == word_ci_at(s@, p as int, seq![w0, w1, w2]),
{
    if p > s.len() || s.len() - p < 3 {
        return false;
    }
    let r = lower(s[p]) == w0 && lower(s[p + 1]) == w1 && lower(s[p + 2]) == w2;
    proof {
        let w = seq![w0, w1, w2];
        if r {
            assert forall|i: int| 0 <= i < w.len() implies ascii_lower(#[trigger] s@[p + i])
                == w[i] by {
                if i == 0 {
                } else if i == 1 {
                } else {
                }
            }
        } else {
            if ascii_lower(s@[p as int]) != w0 {
                assert(ascii_lower(s@[p + 0]) != w[0]);
            } else if ascii_lower(s@[p + 1]) != w1 {
                assert(ascii_lower(s@[p + 1]) != w[1]);
            } else {
                assert(ascii_lower(s@[p + 2]) != w[2]);
            }
        }
    }
    r
}

/// Finds the end of a floating-point literal at `p`.
pub fn parse_number_at(s: &[char], p: usize) -> (r: Result<usize, bool>)
    requires
        p <= s@.len(),
    ensures
        match r {
            Ok(q) => number_at(s@, p as int) == Parsed::<()>::Done((), q as int) && q <= s@.len(),
            Err(hard) => if hard {
                number_at(s@, p as int) == Parsed::<()>::Abort
            } else {
                number_at(s@, p as int) == Parsed::<()>::Miss
            },
        },
{
    let a = if is_char_at(s, p, '+') || is_char_at(s, p, '-') {
        p + 1
    } else {
        p
    };
    let b = skip_run(s, a, CharClass::Digit);
    let mantissa_end: Option<usize> = if b > a {
        if is_char_at(s, b, '.') {
            Some(skip_run(s, b + 1, CharClass::Digit))
        } else {
            Some(b)
        }
    } else if is_char_at(s, a, '.') {
        let c = skip_run(s, a + 1, CharClass::Digit);
        if c > a + 1 {
            Some(c)
        } else {
            None
        }
    } else {
        None
    };
    match mantissa_end {
        Some(m) => {
            if is_char_at(s, m, 'e') || is_char_at(s, m, 'E') {
                let e = if is_char_at(s, m + 1, '+') || is_char_at(s, m + 1, '-') {
                    m + 2
                } else {
                    m + 1
                };
                let f = skip_run(s, e, CharClass::Digit);
                if f > e {
                    Ok(f)
                } else {
                    Err(true)
                }
            } else {
                Ok(m)
            }
        },
        None => {
            if word_ci(s, p, 'n', 'a', 'n') || word_ci(s, p, 'i', 'n', 'f') {
                Ok(p + 3)
            } else {
                Err(false)
            }
        },
    }
}


// ------------------------------------------------------------------
// Quoted strings and receiver lists
// ------------------------------------------------------------------
/// First position at or after `p` holding `c`, or the end of `s`.
pub open spec fn find_char(s: Seq<char>, p: int, c: char) -> int
    decreases s.len() - p,
{
    if 0 <= p < s.len() && s[p] != c {
        find_char(s, p + 1, c)
    } else {
        p
    }
}

proof fn lemma_find_char(s: Seq<char>, p: int, c: char)
    requires
        0 <= p <= s.len(),
    ensures
        p <= find_char(s, p, c) <= s.len(),
        find_char(s, p, c) < s.len() ==> s[find_char(s, p, c)] == c,
        forall|i: int| p <= i < find_char(s, p, c) ==> #[trigger] s[i] != c,
    decreases s.len() - p,
{
    if p < s.len() && s[p] != c {
        lemma_find_char(s, p + 1, c);
    }
}

fn find(s: &[char], p: usize, c: char) -> (q: usize)
    requires
        p <= s@.len(),
    ensures
        q == find_char(s@, p as int, c),
        p <= q <= s@.len(),
{
    let mut q = p;
    while q < s.len() && s[q] != c
        invariant
            p <= q <= s@.len(),
            find_char(s@, p as int, c) == find_char(s@, q as int, c),
        decreases s@.len() - q,
    {
        q = q + 1;
    }
    q
}

/// A double-quoted string at `p`: the bounds of its content and the
/// position after the closing quote.
pub open spec fn quoted_at(s: Seq<char>, p: int) -> Option<(int, int, int)> {
    if char_at(s, p, '"') && find_char(s, p + 1, '"') < s.len() {
        Some((p + 1, find_char(s, p + 1, '"'), find_char(s, p + 1, '"') + 1))
    } else {
        None
    }
}

fn parse_quoted(s: &[char], p: usize) -> (r: Option<(usize, usize, usize)>)
    requires
        p <= s@.len(),
    ensures
        match r {
            Some((a, b, q)) => quoted_at(s@, p as int) == Some((a as int, b as int, q as int)) && p
                < a <= b < q <= s@.len(),
            None => quoted_at(s@, p as int) is None,
        },
{
    if !is_char_at(s, p, '"') {
        return None;
    }
    let e = find(s, p + 1, '"');
    if e >= s.len() {
        return None;
    }
    Some((p + 1, e, e + 1))
}

/// The comma-separated entries of `t`, trimmed, without empty ones.
pub open spec fn receivers_of(t: Seq<char>) -> Seq<Seq<char>>
    decreases t.len(),
{
    let k = find_char(t, 0, ',');
    let piece = trim(t.subrange(0, k));
    let rest = if 0 <= k < t.len() {
        receivers_of(t.subrange(k + 1, t.len() as int))
    } else {
        seq![]
    };
    if piece.len() > 0 {
        seq![piece] + rest
    } else {
        rest
    }
}

proof fn lemma_find_char_shift(s: Seq<char>, lo: int, hi: int, p: int, c: char)
    requires
        0 <= lo <= p <= hi <= s.len(),
    ensures
        find_char(s.subrange(lo, hi), p - lo, c) + lo == if find_char(s, p, c) < hi {
            find_char(s, p, c)
        } else {
            hi
        },
    decreases hi - p,
{
    let t = s.subrange(lo, hi);
    lemma_find_char(s, p, c);
    if p < hi && s[p] != c {
        assert(t[p - lo] == s[p]);
        lemma_find_char_shift(s, lo, hi, p + 1, c);
    } else if p < hi {
        assert(t[p - lo] == s[p]);
    }
}

fn parse_receivers(s: &[char], lo: usize, hi: usize) -> (r: Vec<String>)
    requires
        lo <= hi <= s@.len(),
    ensures
        r@.map_values(|x: String| x@) == receivers_of(s@.subrange(lo as int, hi as int)),
    decreases hi - lo,
{
    let ghost t = s@.subrange(lo as int, hi as int);
    let e = find(s, lo, ',');
    let k = if e < hi {
        e
    } else {
        hi
    };
    proof {
        lemma_find_char_shift(s@, lo as int, hi as int, lo as int, ',');
        assert(find_char(t, 0, ',') == k - lo);
        assert(t.subrange(0, k - lo) =~= s@.subrange(lo as int, k as int));
    }
    let (a, b) = trim_bounds(s, lo, k);
    let mut rest: Vec<String> = if k < hi {
        assert(t.subrange(k - lo + 1, t.len() as int) =~= s@.subrange(k + 1, hi as int));
        parse_receivers(s, k + 1, hi)
    } else {
        Vec::new()
    };
    if a < b {
        let piece = text_of(s, a, b);
        let mut out: Vec<String> = Vec::new();
        out.push(piece);
        let ghost rv = rest@;
        out.append(&mut rest);
        assert(out@.map_values(|x: String| x@) =~= seq![s@.subrange(a as int, b as int)]
            + rv.map_values(|x: String| x@));
        out
    } else {
        rest
    }
}

// ------------------------------------------------------------------
// Signals
// ------------------------------------------------------------------
/// An optional multiplexer indicator (`m` followed by digits, or `M`) at `p`.
pub open spec fn mux_end(s: Seq<char>, p: int) -> int {
    if char_at(s, p, 'm') && skip_class(s, p + 1, CharClass::Digit) > p + 1 {
        skip_class(s, p + 1, CharClass::Digit)
    } else if char_at(s, p, 'M') {
        p + 1
    } else {
        p
    }
}

/// `SG_ name [mux] :` at `p` (after optional blanks): the bounds of the
/// name and the position after the colon.
pub open spec fn signal_head(s: Seq<char>, p0: int) -> Option<(int, int, int)> {
    let p1 = skip_class(s, p0, CharClass::Blank);
    let p2 = p1 + 3;
    let p3 = skip_class(s, p2, CharClass::Blank);
    let p4 = skip_class(s, p3, CharClass::Ident);
    let p5 = skip_class(s, p4, CharClass::Blank);
    let p6 = mux_end(s, p5);
    let p7 = skip_class(s, p6, CharClass::Blank);
    if has_at(s, p1, seq!['S', 'G', '_']) && p3 > p2 && p4 > p3 && char_at(s, p7, ':') {
        Some((p3, p4, p7 + 1))
    } else {
        None
    }
}

/// Bit layout of a signal: the code for the byte order.
pub open spec fn order_of(c: char) -> Option<ByteOrder> {
    if c == '0' {
        Some(ByteOrder::BigEndian)
    } else if c == '1' {
        Some(ByteOrder::LittleEndian)
    } else {
        None
    }
}

/// Value type of a signal: `-` signed, `+` unsigned.
pub open spec fn signedness_of(c: char) -> Option<bool> {
    if c == '-' {
        Some(true)
    } else if c == '+' {
        Some(false)
    } else {
        None
    }
}

/// `start|length@order sign` at `p` (after optional blanks).
pub open spec fn signal_layout(s: Seq<char>, p0: int) -> Option<(u64, u64, ByteOrder, bool, int)> {
    let p = skip_class(s, p0, CharClass::Blank);
    match uint_at(s, p) {
        Some((start, p1)) => if char_at(s, p1, '|') {
            match uint_at(s, p1 + 1) {
                Some((len, p2)) => if char_at(s, p2, '@') && p2 + 2 < s.len() {
                    match (order_of(s[p2 + 1]), signedness_of(s[p2 + 2])) {
                        (Some(o), Some(g)) => Some((start, len, o, g, p2 + 3)),
                        _ => None,
                    }
                } else {
                    None
                },
                None => None,
            }
        } else {
            None
        },
        None => None,
    }
}

/// A number after optional blanks at `p`: its bounds.
pub open spec fn blank_number_at(s: Seq<char>, p: int) -> Parsed<(int, int)> {
    let a = skip_class(s, p, CharClass::Blank);
    match number_at(s, a) {
        Parsed::Done(_, b) => Parsed::Done((a, b), b),
        Parsed::Miss => Parsed::Miss,
        Parsed::Abort => Parsed::Abort,
    }
}

/// `open num sep num close` at `p`: the bounds of the two numbers and the
/// position after `close`.
pub open spec fn number_pair(s: Seq<char>, p: int, open: char, sep: char, close: char) -> Parsed<
    ((int, int), (int, int)),
> {
    if !char_at(s, p, open) {
        Parsed::Miss
    } else {
        match blank_number_at(s, p + 1) {
            Parsed::Done(x, q) => if !char_at(s, q, sep) {
                Parsed::Miss
            } else {
                match blank_number_at(s, q + 1) {
                    Parsed::Done(y, r) => if char_at(s, r, close) {
                        Parsed::Done((x, y), r + 1)
                    } else {
                        Parsed::Miss
                    },
                    Parsed::Miss => Parsed::Miss,
                    Parsed::Abort => Parsed::Abort,
                }
            },
            Parsed::Miss => Parsed::Miss,
            Parsed::Abort => Parsed::Abort,
        }
    }
}

/// The signal text of a full signal line at `p0`, with the position
/// after it.
pub open spec fn signal_at(s: Seq<char>, p0: int) -> Parsed<SignalView> {
    match signal_head(s, p0) {
        None => Parsed::Miss,
        Some((na, nb, p1)) => match signal_layout(s, p1) {
            None => Parsed::Miss,
            Some((start, len, order, signed, p2)) => {
                let p3 = skip_class(s, p2, CharClass::Blank);
                match number_pair(s, p3, '(', ',', ')') {
                    Parsed::Miss => Parsed::Miss,
                    Parsed::Abort => Parsed::Abort,
                    Parsed::Done((f, o), p4) => {
                        let p5 = skip_class(s, p4, CharClass::Blank);
                        match number_pair(s, p5, '[', '|', ']') {
                            Parsed::Miss => Parsed::Miss,
                            Parsed::Abort => Parsed::Abort,
                            Parsed::Done((mn, mx), p6) => {
                                let p7 = skip_class(s, p6, CharClass::Blank);
                                match quoted_at(s, p7) {
                                    None => Parsed::Miss,
                                    Some((ua, ub, p8)) => {
                                        let p9 = skip_class(s, p8, CharClass::Blank);
                                        let p10 = skip_class(s, p9, CharClass::NotEol);
                                        Parsed::Done(
                                            SignalView {
                                                name: s.subrange(na, nb),
                                                start_bit: start as u32,
                                                bit_length: len as u32,
                                                byte_order: order,
                                                is_signed: signed,
                                                factor: s.subrange(f.0, f.1),
                                                offset: s.subrange(o.0, o.1),
                                                min: s.subrange(mn.0, mn.1),
                                                max: s.subrange(mx.0, mx.1),
                                                unit: s.subrange(ua, ub),
                                                receivers: receivers_of(s.subrange(p9, p10)),
                                                value_descriptions: None,
                                            },
                                            p10,
                                        )
                                    },
                                }
                            },
                        }
                    },
                }
            },
        },
    }
}

fn parse_signal_head(s: &[char], p0: usize) -> (r: Option<(usize, usize, usize)>)
    requires
        p0 <= s@.len(),
    ensures
        match r {
            Some((a, b, q)) => signal_head(s@, p0 as int) == Some((a as int, b as int, q as int))
                && a <= b <= q <= s@.len() && p0 < q,
            None => signal_head(s@, p0 as int) is None,
        },
{
    let sg = ['S', 'G', '_'];
    let p1 = skip_run(s, p0, CharClass::Blank);
    if !match_at(s, p1, sg.as_slice()) {
        assert(sg@ == seq!['S', 'G', '_']);
        return None;
    }
    assert(sg@ == seq!['S', 'G', '_']);
    let p2 = p1 + 3;
    let p3 = skip_run(s, p2, CharClass::Blank);
    if p3 == p2 {
        return None;
    }
    let p4 = skip_run(s, p3, CharClass::Ident);
    if p4 == p3 {
        return None;
    }
    let p5 = skip_run(s, p4, CharClass::Blank);
    let p6 = if is_char_at(s, p5, 'm') && skip_run(s, p5 + 1, CharClass::Digit) > p5 + 1 {
        skip_run(s, p5 + 1, CharClass::Digit)
    } else if is_char_at(s, p5, 'M') {
        p5 + 1
    } else {
        p5
    };
    let p7 = skip_run(s, p6, CharClass::Blank);
    if !is_char_at(s, p7, ':') {
        return None;
    }
    Some((p3, p4, p7 + 1))
}

fn parse_signal_layout(s: &[char], p0: usize) -> (r: Option<(u64, u64, ByteOrder, bool, usize)>)
    requires
        p0 <= s@.len(),
    ensures
        match r {
            Some((a, b, o, g, q)) => signal_layout(s@, p0 as int) == Some((a, b, o, g, q as int))
                && p0 <= q <= s@.len(),
            None => signal_layout(s@, p0 as int) is None,
        },
{
    let p = skip_run(s, p0, CharClass::Blank);
    let (start, p1) = match parse_uint_at(s, p) {
        Some(x) => x,
        None => return None,
    };
    if !is_char_at(s, p1, '|') {
        return None;
    }
    let (len, p2) = match parse_uint_at(s, p1 + 1) {
        Some(x) => x,
        None => return None,
    };
    if !is_char_at(s, p2, '@') || s.len() - p2 <= 2 {
        return None;
    }
    let oc = s[p2 + 1];
    let gc = s[p2 + 2];
    let order = if oc == '0' {
        ByteOrder::BigEndian
    } else if oc == '1' {
        ByteOrder::LittleEndian
    } else {
        return None;
    };
    let signed = if gc == '-' {
        true
    } else if gc == '+' {
        false
    } else {
        return None;
    };
    Some((start, len, order, signed, p2 + 3))
}

fn parse_blank_number(s: &[char], p: usize) -> (r: Result<(usize, usize), bool>)
    requires
        p <= s@.len(),
    ensures
        match r {
            Ok((a, b)) => blank_number_at(s@, p as int) == Parsed::Done((a as int, b as int), b as int)
                && p <= a <= b <= s@.len(),
            Err(hard) => if hard {
                blank_number_at(s@, p as int) == Parsed::<(int, int)>::Abort
            } else {
                blank_number_at(s@, p as int) == Parsed::<(int, int)>::Miss
            },
        },
{
    let a = skip_run(s, p, CharClass::Blank);
    match parse_number_at(s, a) {
        Ok(b) => {
            proof {
                if b < a {
                    assert(number_at(s@, a as int) is Done);
                }
            }
            assert(a <= b) by {
                lemma_number_at_advances(s@, a as int);
            }
            Ok((a, b))
        },
        Err(h) => Err(h),
    }
}

proof fn lemma_number_at_advances(s: Seq<char>, p: int)
    requires
        0 <= p <= s.len(),
    ensures
        number_at(s, p) matches Parsed::Done(_, q) ==> p < q,
{
    let a = if char_at(s, p, '+') || char_at(s, p, '-') {
        p + 1
    } else {
        p
    };
    lemma_skip_class_bounds(s, a, CharClass::Digit);
    let b = skip_class(s, a, CharClass::Digit);
    if b > a && char_at(s, b, '.') {
        lemma_skip_class_bounds(s, b + 1, CharClass::Digit);
    }
    if a < s.len() && s[a] == '.' {
        lemma_skip_class_bounds(s, a + 1, CharClass::Digit);
    }
    let m = if b > a {
        if char_at(s, b, '.') {
            skip_class(s, b + 1, CharClass::Digit)
        } else {
            b
        }
    } else {
        skip_class(s, a + 1, CharClass::Digit)
    };
    if 0 <= m <= s.len() {
        let e = if char_at(s, m + 1, '+') || char_at(s, m + 1, '-') {
            m + 2
        } else {
            m + 1
        };
        if e <= s.len() {
            lemma_skip_class_bounds(s, e, CharClass::Digit);
        }
    }
}

fn parse_number_pair(s: &[char], p: usize, open: char, sep: char, close: char) -> (r: Result<
    ((usize, usize), (usize, usize), usize),
    bool,
>)
    requires
        p <= s@.len(),
    ensures
        match r {
            Ok((x, y, q)) => number_pair(s@, p as int, open, sep, close) == Parsed::Done(
                ((x.0 as int, x.1 as int), (y.0 as int, y.1 as int)),
                q as int,
            ) && x.0 <= x.1 <= s@.len() && y.0 <= y.1 <= s@.len() && p < q <= s@.len(),
            Err(hard) => if hard {
                number_pair(s@, p as int, open, sep, close) == Parsed::<
                    ((int, int), (int, int)),
                >::Abort
            } else {
                number_pair(s@, p as int, open, sep, close) == Parsed::<
                    ((int, int), (int, int)),
                >::Miss
            },
        },
{
    if !is_char_at(s, p, open) {
        return Err(false);
    }
    let (xa, xb) = parse_blank_number(s, p + 1)?;
    if !is_char_at(s, xb, sep) {
        return Err(false);
    }
    let (ya, yb) = parse_blank_number(s, xb + 1)?;
    if !is_char_at(s, yb, close) {
        return Err(false);
    }
    Ok(((xa, xb), (ya, yb), yb + 1))
}

/// Parses a signal line at `p0` into a signal without value descriptions.
fn parse_signal(s: &[char], p0: usize) -> (r: Result<(DbcSignal, usize), bool>)
    requires
        p0 <= s@.len(),
    ensures
        match r {
            Ok((sig, q)) => signal_at(s@, p0 as int) == Parsed::Done(sig@, q as int) && p0 < q
                <= s@.len(),
            Err(hard) => if hard {
                signal_at(s@, p0 as int) == Parsed::<SignalView>::Abort
            } else {
                signal_at(s@, p0 as int) == Parsed::<SignalView>::Miss
            },
        },
{
    let (na, nb, p1) = match parse_signal_head(s, p0) {
        Some(x) => x,
        None => return Err(false),
    };
    let (start, len, order, signed, p2) = match parse_signal_layout(s, p1) {
        Some(x) => x,
        None => return Err(false),
    };
    let p3 = skip_run(s, p2, CharClass::Blank);
    let (f, o, p4) = parse_number_pair(s, p3, '(', ',', ')')?;
    let p5 = skip_run(s, p4, CharClass::Blank);
    let (mn, mx, p6) = parse_number_pair(s, p5, '[', '|', ']')?;
    let p7 = skip_run(s, p6, CharClass::Blank);
    let (ua, ub, p8) = match parse_quoted(s, p7) {
        Some(x) => x,
        None => return Err(false),
    };
    let p9 = skip_run(s, p8, CharClass::Blank);
    let p10 = skip_run(s, p9, CharClass::NotEol);
    proof {
        lemma_skip_class_bounds(s@, p0 as int, CharClass::Blank);
    }
    let sig = DbcSignal {
        name: text_of(s, na, nb),
        start_bit: start as u32,
        bit_length: len as u32,
        byte_order: order,
        is_signed: signed,
        factor: text_of(s, f.0, f.1),
        offset: text_of(s, o.0, o.1),
        min: text_of(s, mn.0, mn.1),
        max: text_of(s, mx.0, mx.1),
        unit: text_of(s, ua, ub),
        receivers: parse_receivers(s, p9, p10),
        value_descriptions: None,
    };
    Ok((sig, p10))
}


// ------------------------------------------------------------------
// Messages
// ------------------------------------------------------------------
/// The identifier a DBC message or value table names: bit 31 marks an
/// extended identifier, whose low 29 bits are kept.
pub open spec fn can_id_of(raw: u32) -> u32 {
    if raw & 0x8000_0000u32 != 0 {
        raw & 0x1FFF_FFFFu32
    } else {
        raw
    }
}

/// `BO_ id name : dlc transmitter` at the start of `b`: the identifier,
/// the bounds of the name, the data length, the bounds of the rest of the
/// line, and the position after an optional line ending.
pub open spec fn message_head(b: Seq<char>) -> Option<(u64, int, int, u64, int, int, int)> {
    let p2 = skip_class(b, 3, CharClass::Blank);
    if !has_at(b, 0, seq!['B', 'O', '_']) || p2 == 3 {
        None
    } else {
        match uint_at(b, p2) {
            None => None,
            Some((id, p3)) => {
                let p4 = skip_class(b, p3, CharClass::Blank);
                let p5 = skip_class(b, p4, CharClass::Ident);
                let p6 = skip_class(b, p5, CharClass::Blank);
                let p7 = skip_class(b, p6 + 1, CharClass::Blank);
                if p4 == p3 || p5 == p4 || !char_at(b, p6, ':') {
                    None
                } else {
                    match uint_at(b, p7) {
                        None => None,
                        Some((dlc, p8)) => {
                            let p9 = skip_class(b, p8, CharClass::Blank);
                            let p10 = skip_class(b, p9, CharClass::NotEol);
                            if p9 == p8 {
                                None
                            } else {
                                Some((id, p4, p5, dlc, p9, p10, skip_line_ending(b, p10)))
                            }
                        },
                    }
                }
            },
        }
    }
}

/// The signal lines from `p` on: signals separated by optional line
/// endings, up to the first text that is not a signal; `None` where a
/// number ends in an exponent without digits.
pub open spec fn signals_from(b: Seq<char>, p: int) -> Option<Seq<SignalView>>
    decreases b.len() - p,
{
    match signal_at(b, p) {
        Parsed::Done(sig, q) => if p < q <= b.len() {
            match signals_from(b, skip_line_ending(b, q)) {
                Some(rest) => Some(seq![sig] + rest),
                None => None,
            }
        } else {
            Some(seq![])
        },
        Parsed::Miss => Some(seq![]),
        Parsed::Abort => None,
    }
}

/// The message a `BO_` block defines (signals without value descriptions).
pub open spec fn message_of(b: Seq<char>) -> Option<MessageView> {
    match message_head(b) {
        None => None,
        Some((id, na, nb, dlc, ta, tb, p)) => match signals_from(b, p) {
            None => None,
            Some(sigs) => Some(
                MessageView {
                    id: can_id_of(id as u32),
                    name: b.subrange(na, nb),
                    dlc: dlc as u8,
                    transmitter: trim(b.subrange(ta, tb)),
                    signals: sigs,
                },
            ),
        },
    }
}

fn parse_message_head(b: &[char]) -> (r: Option<(u64, usize, usize, u64, usize, usize, usize)>)
    ensures
        match r {
            Some((id, na, nb, dlc, ta, tb, p)) => message_head(b@) == Some(
                (id, na as int, nb as int, dlc, ta as int, tb as int, p as int),
            ) && na <= nb <= b@.len() && ta <= tb <= b@.len() && p <= b@.len(),
            None => message_head(b@) is None,
        },
{
    let bo = ['B', 'O', '_'];
    assert(bo@ == seq!['B', 'O', '_']);
    if !match_at(b, 0, bo.as_slice()) {
        return None;
    }
    let p2 = skip_run(b, 3, CharClass::Blank);
    if p2 == 3 {
        return None;
    }
    let (id, p3) = match parse_uint_at(b, p2) {
        Some(x) => x,
        None => return None,
    };
    let p4 = skip_run(b, p3, CharClass::Blank);
    if p4 == p3 {
        return None;
    }
    let p5 = skip_run(b, p4, CharClass::Ident);
    if p5 == p4 {
        return None;
    }
    let p6 = skip_run(b, p5, CharClass::Blank);
    if !is_char_at(b, p6, ':') {
        return None;
    }
    let p7 = skip_run(b, p6 + 1, CharClass::Blank);
    let (dlc, p8) = match parse_uint_at(b, p7) {
        Some(x) => x,
        None => return None,
    };
    let p9 = skip_run(b, p8, CharClass::Blank);
    if p9 == p8 {
        return None;
    }
    let p10 = skip_run(b, p9, CharClass::NotEol);
    let p11 = line_ending(b, p10);
    Some((id, p4, p5, dlc, p9, p10, p11))
}

/// Value-description entries, in file order: the table's identifier, the
/// signal name and the table.
pub type ValEntry = (u32, Vec<char>, HashMap<i64, String>);

/// The view of a value-description entry.
pub open spec fn val_entry_view(e: ValEntry) -> (u32, Seq<char>, Map<i64, Seq<char>>) {
    (e.0, e.1@, e.2@.map_values(|s: String| s@))
}

/// The value descriptions that end up on signal `name` of a message with
/// identifier `id`: those of the last entry naming them.
pub open spec fn desc_for(vals: Seq<(u32, Seq<char>, Map<i64, Seq<char>>)>, id: u32, name: Seq<char>) -> Option<
    Map<i64, Seq<char>>,
>
    decreases vals.len(),
{
    if vals.len() == 0 {
        None
    } else if can_id_of(vals.last().0) == id && vals.last().1 == name {
        Some(vals.last().2)
    } else {
        desc_for(vals.drop_last(), id, name)
    }
}

/// A message with value descriptions attached to its signals.
pub open spec fn with_descriptions(
    m: MessageView,
    vals: Seq<(u32, Seq<char>, Map<i64, Seq<char>>)>,
) -> MessageView {
    MessageView {
        signals: m.signals.map_values(
            |s: SignalView| SignalView { value_descriptions: desc_for(vals, m.id, s.name), ..s },
        ),
        ..m
    }
}

fn find_descriptions(vals: &Vec<ValEntry>, id: u32, name: &[char]) -> (r: Option<HashMap<i64, String>>)
    ensures
        descriptions_view(r) == desc_for(vals@.map_values(|e: ValEntry| val_entry_view(e)), id, name@),
{
    let ghost vs = vals@.map_values(|e: ValEntry| val_entry_view(e));
    let mut k = vals.len();
    assert(vs.take(k as int) =~= vs);
    while k > 0
        invariant
            0 <= k <= vals@.len(),
            vs == vals@.map_values(|e: ValEntry| val_entry_view(e)),
            desc_for(vs, id, name@) == desc_for(vs.take(k as int), id, name@),
        decreases k,
    {
        let e = &vals[k - 1];
        assert(vs.take(k as int).drop_last() =~= vs.take(k - 1));
        assert(vs.take(k as int).last() == val_entry_view(*e));
        let raw = e.0;
        let lookup = if raw & 0x8000_0000u32 != 0 {
            raw & 0x1FFF_FFFFu32
        } else {
            raw
        };
        if lookup == id && crate::text::range_eq(e.1.as_slice(), 0, e.1.len(), name) {
            assert(e.1@.subrange(0, e.1@.len() as int) =~= e.1@);
            return Some(e.2.clone());
        }
        assert(e.1@.subrange(0, e.1@.len() as int) =~= e.1@);
        k = k - 1;
    }
    None
}

/// Parses a `BO_` block and attaches value descriptions to its signals.
fn parse_message(b: &[char], vals: &Vec<ValEntry>) -> (r: Option<DbcMessage>)
    ensures
        match r {
            Some(m) => message_of(b@) matches Some(mv) && m@ == with_descriptions(
                mv,
                vals@.map_values(|e: ValEntry| val_entry_view(e)),
            ),
            None => message_of(b@) is None,
        },
{
    let ghost vs = vals@.map_values(|e: ValEntry| val_entry_view(e));
    let (raw_id, na, nb, dlc, ta, tb, p0) = match parse_message_head(b) {
        Some(x) => x,
        None => return None,
    };
    let raw32 = raw_id as u32;
    let id = if raw32 & 0x8000_0000u32 != 0 {
        raw32 & 0x1FFF_FFFFu32
    } else {
        raw32
    };
    let mut signals: Vec<DbcSignal> = Vec::new();
    let mut p = p0;
    let ghost plain: Seq<SignalView> = seq![];
    loop
        invariant
            p <= b@.len(),
            message_head(b@) == Some(
                (raw_id, na as int, nb as int, dlc, ta as int, tb as int, p0 as int),
            ),
            signals@.len() == plain.len(),
            forall|i: int|
                0 <= i < plain.len() ==> #[trigger] signals@[i]@ == (SignalView {
                    value_descriptions: desc_for(vs, id, plain[i].name),
                    ..plain[i]
                }),
            vs == vals@.map_values(|e: ValEntry| val_entry_view(e)),
            signals_from(b@, p0 as int) == match signals_from(b@, p as int) {
                Some(rest) => Some(plain + rest),
                None => None,
            },
        ensures
            signals_from(b@, p0 as int) == Some(plain),
        decreases b@.len() - p,
    {
        match parse_signal(b, p) {
            Ok((mut sig, q)) => {
                let ghost sv = sig@;
                let descs = find_descriptions(vals, id, chars_of_string(&sig.name).as_slice());
                sig.value_descriptions = descs;
                signals.push(sig);
                proof {
                    plain = plain.push(sv);
                }
                let q2 = line_ending(b, q);
                assert(signals_from(b@, p as int) == match signals_from(b@, q2 as int) {
                    Some(rest) => Some(seq![sv] + rest),
                    None => None,
                });
                proof {
                    match signals_from(b@, q2 as int) {
                        Some(rest) => {
                            assert(plain.drop_last() + (seq![sv] + rest) =~= plain + rest);
                        },
                        None => {},
                    }
                }
                p = q2;
            },
            Err(hard) => {
                if hard {
                    assert(signals_from(b@, p as int) is None);
                    assert(signals_from(b@, p0 as int) is None);
                    assert(message_of(b@) is None);
                    return None;
                }
                assert(signals_from(b@, p as int) == Some(Seq::<SignalView>::empty()));
                assert(plain + Seq::<SignalView>::empty() =~= plain);
                break;
            },
        }
    }
    let name = text_of(b, na, nb);
    let (ta2, tb2) = trim_bounds(b, ta, tb);
    let transmitter = text_of(b, ta2, tb2);
    let m = DbcMessage { id, name, dlc: dlc as u8, transmitter, signals };
    assert(signals_from(b@, p0 as int) == Some(plain));
    assert(message_of(b@).unwrap().signals == plain);
    assert forall|i: int| 0 <= i < plain.len() implies #[trigger] m@.signals[i]
        == with_descriptions(message_of(b@).unwrap(), vs).signals[i] by {
        assert(m@.signals[i] == signals@[i]@);
    }
    assert(m@.signals =~= with_descriptions(message_of(b@).unwrap(), vs).signals);
    Some(m)
}

/// The characters of a `String`.
fn chars_of_string(s: &String) -> (v: Vec<char>)
    ensures
        v@ == s@,
{
    crate::text::chars_of(s.as_str())
}


// ------------------------------------------------------------------
// Value descriptions
// ------------------------------------------------------------------
/// `VAL_ id name` at the start of `b`: the table identifier, the bounds
/// of the signal name, and the position after it.
pub open spec fn val_head(b: Seq<char>) -> Option<(u64, int, int, int)> {
    let p2 = skip_class(b, 4, CharClass::Blank);
    if !has_at(b, 0, seq!['V', 'A', 'L', '_']) || p2 == 4 {
        None
    } else {
        match uint_at(b, p2) {
            None => None,
            Some((id, p3)) => {
                let p4 = skip_class(b, p3, CharClass::Blank);
                let p5 = skip_class(b, p4, CharClass::Ident);
                if p4 == p3 || p5 == p4 {
                    None
                } else {
                    Some((id, p4, p5, p5))
                }
            },
        }
    }
}

/// The `value "description"` pairs from `p` on, added to `m` (a later
/// pair for the same value replaces an earlier one). The list ends at a
/// `;` or at the first text that is not an integer; `None` where an
/// integer is not followed by blanks and a quoted string.
pub open spec fn val_entries(b: Seq<char>, p: int, m: Map<i64, Seq<char>>) -> Option<
    Map<i64, Seq<char>>,
>
    decreases b.len() - p,
{
    let q = skip_class(b, p, CharClass::Blank);
    if char_at(b, q, ';') {
        Some(m)
    } else {
        match int_at(b, q) {
            None => Some(m),
            Some((v, r)) => {
                let r2 = skip_class(b, r, CharClass::Blank);
                if r2 == r {
                    None
                } else {
                    match quoted_at(b, r2) {
                        None => None,
                        Some((ca, cb, r3)) => if p < r3 <= b.len() {
                            val_entries(b, r3, m.insert(v, b.subrange(ca, cb)))
                        } else {
                            Some(m)
                        },
                    }
                }
            },
        }
    }
}

/// The value-description entry a `VAL_` block defines.
pub open spec fn val_of(b: Seq<char>) -> Option<(u32, Seq<char>, Map<i64, Seq<char>>)> {
    match val_head(b) {
        None => None,
        Some((id, na, nb, p)) => match val_entries(b, p, Map::empty()) {
            None => None,
            Some(m) => Some((id as u32, b.subrange(na, nb), m)),
        },
    }
}

proof fn lemma_int_at_bounds(s: Seq<char>, p: int)
    requires
        0 <= p <= s.len(),
    ensures
        int_at(s, p) matches Some((_, q)) ==> p < q <= s.len(),
{
    let d = if char_at(s, p, '-') {
        p + 1
    } else {
        p
    };
    lemma_skip_class_bounds(s, d, CharClass::Digit);
}

fn parse_val(b: &[char]) -> (r: Option<ValEntry>)
    ensures
        match r {
            Some(e) => val_of(b@) == Some(val_entry_view(e)),
            None => val_of(b@) is None,
        },
{
    let val = ['V', 'A', 'L', '_'];
    assert(val@ == seq!['V', 'A', 'L', '_']);
    if !match_at(b, 0, val.as_slice()) {
        return None;
    }
    let p2 = skip_run(b, 4, CharClass::Blank);
    if p2 == 4 {
        return None;
    }
    let (id, p3) = match parse_uint_at(b, p2) {
        Some(x) => x,
        None => return None,
    };
    let p4 = skip_run(b, p3, CharClass::Blank);
    if p4 == p3 {
        return None;
    }
    let p5 = skip_run(b, p4, CharClass::Ident);
    if p5 == p4 {
        return None;
    }
    let mut map: HashMap<i64, String> = HashMap::new();
    let mut p = p5;
    assert(map@.map_values(|s: String| s@) =~= Map::<i64, Seq<char>>::empty());
    loop
        invariant
            p5 <= p <= b@.len(),
            val_head(b@) == Some((id, p4 as int, p5 as int, p5 as int)),
            val_entries(b@, p5 as int, Map::empty()) == val_entries(
                b@,
                p as int,
                map@.map_values(|s: String| s@),
            ),
        ensures
            val_entries(b@, p5 as int, Map::empty()) == Some(map@.map_values(|s: String| s@)),
        decreases b@.len() - p,
    {
        let q = skip_run(b, p, CharClass::Blank);
        if is_char_at(b, q, ';') {
            break;
        }
        match parse_int_at(b, q) {
            None => break,
            Some((v, r)) => {
                let r2 = skip_run(b, r, CharClass::Blank);
                if r2 == r {
                    return None;
                }
                let (ca, cb, r3) = match parse_quoted(b, r2) {
                    Some(x) => x,
                    None => return None,
                };
                proof {
                    lemma_skip_class_bounds(b@, p as int, CharClass::Blank);
                    lemma_int_at_bounds(b@, q as int);
                }
                let desc = text_of(b, ca, cb);
                let ghost before = map@.map_values(|s: String| s@);
                map.insert(v, desc);
                assert(map@.map_values(|s: String| s@) =~= before.insert(v, b@.subrange(ca as int, cb as int)));
                p = r3;
            },
        }
    }
    let name = vstd::slice::slice_to_vec(vstd::slice::slice_subrange(b, p4, p5));
    Some((id as u32, name, map))
}

// ------------------------------------------------------------------
// Whole files
// ------------------------------------------------------------------
/// Whether `t` begins with `w`.
pub open spec fn begins_with(t: Seq<char>, w: Seq<char>) -> bool {
    w.len() <= t.len() && t.subrange(0, w.len() as int) == w
}

/// Whether `t` holds the character `c`.
pub open spec fn holds_char(t: Seq<char>, c: char) -> bool {
    find_char(t, 0, c) < t.len()
}

/// End of the run of signal lines (lines that begin with `SG_ ` once
/// trimmed) that starts at line `j`.
pub open spec fn signal_run_end(ls: Seq<Seq<char>>, j: int) -> int
    decreases ls.len() - j,
{
    if 0 <= j < ls.len() && begins_with(trim(ls[j]), seq!['S', 'G', '_', ' ']) {
        signal_run_end(ls, j + 1)
    } else {
        j
    }
}

/// End of the continuation lines of a value-description block that starts
/// at line `j`: just after the first line holding `;`, or the end.
pub open spec fn val_run_end(ls: Seq<Seq<char>>, j: int) -> int
    decreases ls.len() - j,
{
    if 0 <= j < ls.len() {
        if holds_char(ls[j], ';') {
            j + 1
        } else {
            val_run_end(ls, j + 1)
        }
    } else {
        j
    }
}

/// Lines `i..k` joined with line feeds.
pub open spec fn join_lines(ls: Seq<Seq<char>>, i: int, k: int) -> Seq<char>
    decreases k - i,
{
    if k <= i + 1 {
        ls[i]
    } else {
        join_lines(ls, i, k - 1) + seq!['\n'] + ls[k - 1]
    }
}

/// `first`, then lines `j..k` trimmed, each after a space.
pub open spec fn join_trimmed(first: Seq<char>, ls: Seq<Seq<char>>, j: int, k: int) -> Seq<char>
    decreases k - j,
{
    if k <= j {
        first
    } else {
        join_trimmed(first, ls, j, k - 1) + seq![' '] + trim(ls[k - 1])
    }
}

/// The message blocks and value-description entries of the lines from
/// `i` on. A message block is a line beginning with `BO_ ` (once trimmed)
/// with the signal lines that follow it; a value-description block is a
/// trimmed line beginning with `VAL_ `, continued by the following
/// trimmed lines up to the one that holds `;` when it holds none itself.
pub open spec fn scan(ls: Seq<Seq<char>>, i: int) -> (Seq<Seq<char>>, Seq<(u32, Seq<char>, Map<i64, Seq<char>>)>)
    decreases ls.len() - i,
{
    if i < 0 || i >= ls.len() {
        (seq![], seq![])
    } else {
        let line = trim(ls[i]);
        if begins_with(line, seq!['B', 'O', '_', ' ']) {
            let k = signal_run_end(ls, i + 1);
            if k <= i || k > ls.len() {
                (seq![], seq![])
            } else {
                let rest = scan(ls, k);
                (seq![join_lines(ls, i, k)] + rest.0, rest.1)
            }
        } else if begins_with(line, seq!['V', 'A', 'L', '_', ' ']) {
            let k = if holds_char(line, ';') {
                i + 1
            } else {
                val_run_end(ls, i + 1)
            };
            if k <= i || k > ls.len() {
                (seq![], seq![])
            } else {
                let rest = scan(ls, k);
                let here = match val_of(join_trimmed(line, ls, i + 1, k)) {
                    Some(v) => seq![v],
                    None => seq![],
                };
                (rest.0, here + rest.1)
            }
        } else {
            scan(ls, i + 1)
        }
    }
}

/// The messages of parsed blocks that parse, with value descriptions attached.
pub open spec fn parsed_messages(
    blocks: Seq<Seq<char>>,
    vals: Seq<(u32, Seq<char>, Map<i64, Seq<char>>)>,
) -> Seq<MessageView>
    decreases blocks.len(),
{
    if blocks.len() == 0 {
        seq![]
    } else {
        parsed_messages(blocks.drop_last(), vals) + match message_of(blocks.last()) {
            Some(m) => seq![with_descriptions(m, vals)],
            None => seq![],
        }
    }
}

/// The messages a DBC file defines: every message block that parses, in
/// file order, its signals carrying the value descriptions of the last
/// value-description entry that names them.
pub open spec fn dbc_messages(content: Seq<char>) -> Seq<MessageView> {
    let sc = scan(crate::text::lines(content), 0);
    parsed_messages(sc.0, sc.1)
}

proof fn lemma_signal_run_end(ls: Seq<Seq<char>>, j: int)
    requires
        0 <= j <= ls.len(),
    ensures
        j <= signal_run_end(ls, j) <= ls.len(),
    decreases ls.len() - j,
{
    if j < ls.len() && begins_with(trim(ls[j]), seq!['S', 'G', '_', ' ']) {
        lemma_signal_run_end(ls, j + 1);
    }
}

proof fn lemma_val_run_end(ls: Seq<Seq<char>>, j: int)
    requires
        0 <= j <= ls.len(),
    ensures
        j <= val_run_end(ls, j) <= ls.len(),
    decreases ls.len() - j,
{
    if j < ls.len() && !holds_char(ls[j], ';') {
        lemma_val_run_end(ls, j + 1);
    }
}

fn text_holds_char(s: &[char], lo: usize, hi: usize, c: char) -> (b: bool)
    requires
        lo <= hi <= s@.len(),
    ensures
        b == holds_char(s@.subrange(lo as int, hi as int), c),
{
    let e = find(s, lo, c);
    proof {
        lemma_find_char_shift(s@, lo as int, hi as int, lo as int, c);
    }
    e < hi
}

fn text_begins_with(s: &[char], lo: usize, hi: usize, w: &[char]) -> (b: bool)
    requires
        lo <= hi <= s@.len(),
    ensures
        b == begins_with(s@.subrange(lo as int, hi as int), w@),
{
    let r = crate::text::range_starts_with(s, lo, hi, w);
    assert(w@.len() <= hi - lo ==> s@.subrange(lo as int, hi as int).subrange(0, w@.len() as int)
        =~= s@.subrange(lo as int, lo + w@.len()));
    r
}

/// `ranges` are the bounds in `s` of the lines `ls`.
pub open spec fn ranges_match(s: Seq<char>, ranges: Seq<(usize, usize)>, ls: Seq<Seq<char>>) -> bool {
    &&& ranges.len() == ls.len()
    &&& forall|k: int|
        0 <= k < ranges.len() ==> #[trigger] ranges[k].0 <= ranges[k].1 <= s.len() && s.subrange(
            ranges[k].0 as int,
            ranges[k].1 as int,
        ) == ls[k]
}

/// Line `i` and the signal lines after it, joined with line feeds.
fn collect_message_block(
    s: &[char],
    ranges: &Vec<(usize, usize)>,
    Ghost(ls): Ghost<Seq<Seq<char>>>,
    i: usize,
) -> (r: (Vec<char>, usize))
    requires
        ranges_match(s@, ranges@, ls),
        i < ranges@.len(),
    ensures
        r.0@ == join_lines(ls, i as int, r.1 as int),
        r.1 == signal_run_end(ls, i + 1),
        i < r.1 <= ranges@.len(),
{
    let sg = ['S', 'G', '_', ' '];
    assert(sg@ == seq!['S', 'G', '_', ' ']);
    let (lo, hi) = ranges[i];
    assert(s@.subrange(lo as int, hi as int) == ls[i as int]);
    let mut block: Vec<char> = vstd::slice::slice_to_vec(vstd::slice::slice_subrange(s, lo, hi));
    let n = ranges.len();
    let mut j = i + 1;
    while j < ranges.len()
        invariant
            i < j <= ranges@.len(),
            ranges_match(s@, ranges@, ls),
            sg@ == seq!['S', 'G', '_', ' '],
            block@ == join_lines(ls, i as int, j as int),
            signal_run_end(ls, i + 1) == signal_run_end(ls, j as int),
        decreases ranges@.len() - j,
    {
        let (l2, h2) = ranges[j];
        assert(s@.subrange(l2 as int, h2 as int) == ls[j as int]);
        let (a2, b2) = trim_bounds(s, l2, h2);
        if !text_begins_with(s, a2, b2, sg.as_slice()) {
            return (block, j);
        }
        block.push('\n');
        block.extend_from_slice(vstd::slice::slice_subrange(s, l2, h2));
        assert(block@ =~= join_lines(ls, i as int, j + 1));
        j = j + 1;
    }
    (block, j)
}

/// Line `i` trimmed, continued by the following trimmed lines up to the
/// one holding `;` unless it holds one itself.
fn collect_val_block(
    s: &[char],
    ranges: &Vec<(usize, usize)>,
    Ghost(ls): Ghost<Seq<Seq<char>>>,
    i: usize,
    a: usize,
    b: usize,
) -> (r: (Vec<char>, usize))
    requires
        ranges_match(s@, ranges@, ls),
        i < ranges@.len(),
        a <= b <= s@.len(),
        s@.subrange(a as int, b as int) == trim(ls[i as int]),
    ensures
        r.0@ == join_trimmed(trim(ls[i as int]), ls, i + 1, r.1 as int),
        r.1 == if holds_char(trim(ls[i as int]), ';') {
            i + 1
        } else {
            val_run_end(ls, i + 1)
        },
        i < r.1 <= ranges@.len(),
{
    let ghost line = trim(ls[i as int]);
    let mut block: Vec<char> = vstd::slice::slice_to_vec(vstd::slice::slice_subrange(s, a, b));
    let n = ranges.len();
    let mut j = i + 1;
    assert(block@ =~= join_trimmed(line, ls, i + 1, j as int));
    if text_holds_char(s, a, b, ';') {
        return (block, j);
    }
    while j < ranges.len()
        invariant
            i < j <= ranges@.len(),
            ranges_match(s@, ranges@, ls),
            line == trim(ls[i as int]),
            !holds_char(line, ';'),
            block@ == join_trimmed(line, ls, i + 1, j as int),
            val_run_end(ls, i + 1) == val_run_end(ls, j as int),
        decreases ranges@.len() - j,
    {
        let (l2, h2) = ranges[j];
        assert(s@.subrange(l2 as int, h2 as int) == ls[j as int]);
        let (a2, b2) = trim_bounds(s, l2, h2);
        block.push(' ');
        block.extend_from_slice(vstd::slice::slice_subrange(s, a2, b2));
        assert(block@ =~= join_trimmed(line, ls, i + 1, j + 1));
        let stop = text_holds_char(s, l2, h2, ';');
        if stop {
            assert(val_run_end(ls, j as int) == j + 1);
            return (block, j + 1);
        }
        j = j + 1;
    }
    (block, j)
}

/// Parses a DBC file into its messages.
pub fn parse_dbc(content: &str) -> (r: Result<Vec<DbcMessage>, String>)
    ensures
        r matches Ok(ms) && ms@.map_values(|m: DbcMessage| m@) == dbc_messages(content@),
{
    let text = crate::text::chars_of(content);
    let s = text.as_slice();
    let ranges = crate::text::line_ranges(s);
    let ghost ls = crate::text::lines(s@);
    let bo = ['B', 'O', '_', ' '];
    let vl = ['V', 'A', 'L', '_', ' '];
    assert(bo@ == seq!['B', 'O', '_', ' ']);
    assert(vl@ == seq!['V', 'A', 'L', '_', ' ']);
    let mut blocks: Vec<Vec<char>> = Vec::new();
    let mut vals: Vec<ValEntry> = Vec::new();
    let mut i: usize = 0;
    assert(blocks@.map_values(|v: Vec<char>| v@) =~= Seq::<Seq<char>>::empty());
    assert(vals@.map_values(|e: ValEntry| val_entry_view(e)) =~= Seq::<
        (u32, Seq<char>, Map<i64, Seq<char>>),
    >::empty());
    while i < ranges.len()
        invariant
            0 <= i <= ranges@.len(),
            ranges_match(s@, ranges@, ls),
            bo@ == seq!['B', 'O', '_', ' '],
            vl@ == seq!['V', 'A', 'L', '_', ' '],
            scan(ls, 0).0 == blocks@.map_values(|v: Vec<char>| v@) + scan(ls, i as int).0,
            scan(ls, 0).1 == vals@.map_values(|e: ValEntry| val_entry_view(e)) + scan(
                ls,
                i as int,
            ).1,
        decreases ranges@.len() - i,
    {
        let (lo, hi) = ranges[i];
        assert(s@.subrange(lo as int, hi as int) == ls[i as int]);
        let (a, b) = trim_bounds(s, lo, hi);
        let ghost old_blocks = blocks@.map_values(|v: Vec<char>| v@);
        let ghost old_vals = vals@.map_values(|e: ValEntry| val_entry_view(e));
        if text_begins_with(s, a, b, bo.as_slice()) {
            let (block, j) = collect_message_block(s, &ranges, Ghost(ls), i);
            blocks.push(block);
            proof {
                assert(scan(ls, i as int).0 == seq![join_lines(ls, i as int, j as int)] + scan(
                    ls,
                    j as int,
                ).0);
                assert(blocks@.map_values(|v: Vec<char>| v@) =~= old_blocks.push(
                    join_lines(ls, i as int, j as int),
                ));
                assert(old_blocks + scan(ls, i as int).0 =~= blocks@.map_values(|v: Vec<char>| v@)
                    + scan(ls, j as int).0);
            }
            i = j;
        } else if text_begins_with(s, a, b, vl.as_slice()) {
            let (block, j) = collect_val_block(s, &ranges, Ghost(ls), i, a, b);
            let entry = parse_val(block.as_slice());
            match entry {
                Some(e) => {
                    vals.push(e);
                },
                None => {},
            }
            proof {
                let here = match val_of(block@) {
                    Some(v) => seq![v],
                    None => seq![],
                };
                assert(scan(ls, i as int).1 == here + scan(ls, j as int).1);
                assert(scan(ls, i as int).0 == scan(ls, j as int).0);
                assert(vals@.map_values(|e: ValEntry| val_entry_view(e)) =~= old_vals + here);
                assert(old_vals + scan(ls, i as int).1 =~= vals@.map_values(
                    |e: ValEntry| val_entry_view(e),
                ) + scan(ls, j as int).1);
            }
            i = j;
        } else {
            i = i + 1;
        }
    }
    let ghost sc = scan(ls, 0);
    assert(sc.0 =~= blocks@.map_values(|v: Vec<char>| v@));
    assert(sc.1 =~= vals@.map_values(|e: ValEntry| val_entry_view(e)));
    let mut messages: Vec<DbcMessage> = Vec::new();
    let mut k: usize = 0;
    let ghost vs = vals@.map_values(|e: ValEntry| val_entry_view(e));
    let ghost bv = blocks@.map_values(|v: Vec<char>| v@);
    assert(messages@.map_values(|m: DbcMessage| m@) =~= parsed_messages(bv.take(0), vs));
    while k < blocks.len()
        invariant
            0 <= k <= blocks@.len(),
            vs == vals@.map_values(|e: ValEntry| val_entry_view(e)),
            bv == blocks@.map_values(|v: Vec<char>| v@),
            messages@.map_values(|m: DbcMessage| m@) == parsed_messages(bv.take(k as int), vs),
        decreases blocks@.len() - k,
    {
        assert(bv.take(k + 1).drop_last() =~= bv.take(k as int));
        assert(bv.take(k + 1).last() == blocks@[k as int]@);
        let ghost before = messages@.map_values(|m: DbcMessage| m@);
        match parse_message(blocks[k].as_slice(), &vals) {
            Some(m) => {
                messages.push(m);
            },
            None => {},
        }
        assert(messages@.map_values(|m: DbcMessage| m@) =~= parsed_messages(bv.take(k + 1), vs));
        k = k + 1;
    }
    assert(bv.take(k as int) =~= bv);
    Ok(messages)
}

} // verus!
