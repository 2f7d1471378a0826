//! Laws of the DBC signal parser: what a multiplexer indicator changes.
use vstd::prelude::*;

use crate::dbc::parser::{
    blank_number_at, char_at, find_char, has_at, in_class, mux_end, number_at, number_pair,
    quoted_at, signal_at, signal_head, signal_layout, skip_class, uint_at, word_ci_at, CharClass,
    Parsed,
};
use crate::dbc::signal::SignalView;

verus! {

/// `t` holds from position `a + d` on what `s` holds from `a` on.
pub open spec fn tail_eq(s: Seq<char>, t: Seq<char>, a: int, d: int) -> bool {
    &&& 0 <= a <= s.len()
    &&& 0 <= a + d
    &&& t.len() == s.len() + d
    &&& forall|i: int| a <= i < s.len() ==> #[trigger] s[i] == t[i + d]
}

/// `t` holds on `[0, b)` what `s` holds there.
pub open spec fn head_eq(s: Seq<char>, t: Seq<char>, b: int) -> bool {
    &&& 0 <= b <= s.len()
    &&& b <= t.len()
    &&& forall|i: int| 0 <= i < b ==> #[trigger] s[i] == t[i]
}

proof fn lemma_skip_ge(s: Seq<char>, p: int, k: CharClass)
    ensures
        skip_class(s, p, k) >= p,
        0 <= p <= s.len() ==> skip_class(s, p, k) <= s.len(),
        p > s.len() ==> skip_class(s, p, k) == p,
    decreases s.len() - p,
{
    if 0 <= p < s.len() && in_class(s[p], k) {
        lemma_skip_ge(s, p + 1, k);
    }
}

proof fn lemma_char_tail(s: Seq<char>, t: Seq<char>, a: int, d: int, p: int, c: char)
    requires
        tail_eq(s, t, a, d),
        a <= p,
    ensures
        char_at(t, p + d, c) == char_at(s, p, c),
{
    if p < s.len() {
        assert(s[p] == t[p + d]);
    }
}

proof fn lemma_skip_tail(s: Seq<char>, t: Seq<char>, a: int, d: int, p: int, k: CharClass)
    requires
        tail_eq(s, t, a, d),
        a <= p,
    ensures
        skip_class(t, p + d, k) == skip_class(s, p, k) + d,
    decreases s.len() - p,
{
    if p < s.len() {
        assert(s[p] == t[p + d]);
        if in_class(s[p], k) {
            lemma_skip_tail(s, t, a, d, p + 1, k);
        }
    }
}

proof fn lemma_sub_tail(s: Seq<char>, t: Seq<char>, a: int, d: int, p: int, q: int)
    requires
        tail_eq(s, t, a, d),
        a <= p <= q <= s.len(),
    ensures
        t.subrange(p + d, q + d) == s.subrange(p, q),
{
    assert forall|i: int| 0 <= i < q - p implies #[trigger] t.subrange(p + d, q + d)[i]
        == s.subrange(p, q)[i] by {
        assert(s[p + i] == t[p + i + d]);
    }
    assert(t.subrange(p + d, q + d) =~= s.subrange(p, q));
}

proof fn lemma_uint_tail(s: Seq<char>, t: Seq<char>, a: int, d: int, p: int)
    requires
        tail_eq(s, t, a, d),
        a <= p,
    ensures
        uint_at(t, p + d) == (match uint_at(s, p) {
            Some((v, q)) => Some((v, q + d)),
            None => None,
        }),
{
    lemma_skip_tail(s, t, a, d, p, CharClass::Digit);
    let q = skip_class(s, p, CharClass::Digit);
    if q > p {
        crate::dbc::parser::lemma_skip_class_bounds(s, p, CharClass::Digit);
        lemma_sub_tail(s, t, a, d, p, q);
    }
}

proof fn lemma_word_tail(s: Seq<char>, t: Seq<char>, a: int, d: int, p: int, w: Seq<char>)
    requires
        tail_eq(s, t, a, d),
        a <= p,
    ensures
        word_ci_at(t, p + d, w) == word_ci_at(s, p, w),
{
    if p + w.len() <= s.len() {
        if word_ci_at(s, p, w) {
            assert forall|i: int| 0 <= i < w.len() implies crate::dbc::parser::ascii_lower(
                #[trigger] t[p + d + i],
            ) == w[i] by {
                assert(s[p + i] == t[p + i + d]);
                assert(crate::dbc::parser::ascii_lower(s[p + i]) == w[i]);
            }
        }
        if word_ci_at(t, p + d, w) {
            assert forall|i: int| 0 <= i < w.len() implies crate::dbc::parser::ascii_lower(
                #[trigger] s[p + i],
            ) == w[i] by {
                assert(s[p + i] == t[p + i + d]);
                assert(crate::dbc::parser::ascii_lower(t[p + d + i]) == w[i]);
            }
        }
    }
}

/// A parse outcome with its end position moved by `d`.
pub open spec fn shifted<T>(r: Parsed<T>, d: int) -> Parsed<T> {
    match r {
        Parsed::Done(v, q) => Parsed::Done(v, q + d),
        Parsed::Miss => Parsed::Miss,
        Parsed::Abort => Parsed::Abort,
    }
}

proof fn lemma_number_tail(s: Seq<char>, t: Seq<char>, a: int, d: int, p: int)
    requires
        tail_eq(s, t, a, d),
        a <= p,
    ensures
        number_at(t, p + d) == shifted(number_at(s, p), d),
{
    lemma_char_tail(s, t, a, d, p, '+');
    lemma_char_tail(s, t, a, d, p, '-');
    let a0 = if char_at(s, p, '+') || char_at(s, p, '-') {
        p + 1
    } else {
        p
    };
    lemma_skip_tail(s, t, a, d, a0, CharClass::Digit);
    if a0 <= s.len() {
        crate::dbc::parser::lemma_skip_class_bounds(s, a0, CharClass::Digit);
    }
    let b = skip_class(s, a0, CharClass::Digit);
    assert(b >= a0);
    lemma_char_tail(s, t, a, d, b, '.');
    lemma_skip_tail(s, t, a, d, b + 1, CharClass::Digit);
    lemma_char_tail(s, t, a, d, a0, '.');
    lemma_skip_tail(s, t, a, d, a0 + 1, CharClass::Digit);
    let m: Option<int> = if b > a0 {
        if char_at(s, b, '.') {
            Some(skip_class(s, b + 1, CharClass::Digit))
        } else {
            Some(b)
        }
    } else if char_at(s, a0, '.') && skip_class(s, a0 + 1, CharClass::Digit) > a0 + 1 {
        Some(skip_class(s, a0 + 1, CharClass::Digit))
    } else {
        None
    };
    match m {
        Some(me) => {
            if b + 1 <= s.len() {
                crate::dbc::parser::lemma_skip_class_bounds(s, b + 1, CharClass::Digit);
            }
            if a0 + 1 <= s.len() {
                crate::dbc::parser::lemma_skip_class_bounds(s, a0 + 1, CharClass::Digit);
            }
            assert(me >= p);
            lemma_char_tail(s, t, a, d, me, 'e');
            lemma_char_tail(s, t, a, d, me, 'E');
            lemma_char_tail(s, t, a, d, me + 1, '+');
            lemma_char_tail(s, t, a, d, me + 1, '-');
            let e = if char_at(s, me + 1, '+') || char_at(s, me + 1, '-') {
                me + 2
            } else {
                me + 1
            };
            lemma_skip_tail(s, t, a, d, e, CharClass::Digit);
        },
        None => {
            lemma_word_tail(s, t, a, d, p, seq!['n', 'a', 'n']);
            lemma_word_tail(s, t, a, d, p, seq!['i', 'n', 'f']);
        },
    }
}

proof fn lemma_blank_number_tail(s: Seq<char>, t: Seq<char>, a: int, d: int, p: int)
    requires
        tail_eq(s, t, a, d),
        a <= p,
    ensures
        blank_number_at(t, p + d) == (match blank_number_at(s, p) {
            Parsed::Done((x, y), q) => Parsed::Done((x + d, y + d), q + d),
            Parsed::Miss => Parsed::Miss,
            Parsed::Abort => Parsed::Abort,
        }),
{
    lemma_skip_tail(s, t, a, d, p, CharClass::Blank);
    lemma_skip_ge(s, p, CharClass::Blank);
    lemma_number_tail(s, t, a, d, skip_class(s, p, CharClass::Blank));
}

/// The bounds of the two numbers of a pair, moved by `d`.
pub open spec fn pair_shifted(r: Parsed<((int, int), (int, int))>, d: int) -> Parsed<
    ((int, int), (int, int)),
> {
    match r {
        Parsed::Done((x, y), q) => Parsed::Done(((x.0 + d, x.1 + d), (y.0 + d, y.1 + d)), q + d),
        Parsed::Miss => Parsed::Miss,
        Parsed::Abort => Parsed::Abort,
    }
}

proof fn lemma_pair_tail(
    s: Seq<char>,
    t: Seq<char>,
    a: int,
    d: int,
    p: int,
    open: char,
    sep: char,
    close: char,
)
    requires
        tail_eq(s, t, a, d),
        a <= p,
    ensures
        number_pair(t, p + d, open, sep, close) == pair_shifted(
            number_pair(s, p, open, sep, close),
            d,
        ),
        (number_pair(s, p, open, sep, close) matches Parsed::Done((x, y), q) ==> a <= x.0 <= x.1
            && a <= y.0 <= y.1 <= s.len() && x.1 <= s.len() && q <= s.len()),
{
    lemma_char_tail(s, t, a, d, p, open);
    lemma_blank_number_tail(s, t, a, d, p + 1);
    lemma_blank_number_bounds(s, p + 1);
    match blank_number_at(s, p + 1) {
        Parsed::Done(_, q) => {
            lemma_char_tail(s, t, a, d, q, sep);
            lemma_blank_number_tail(s, t, a, d, q + 1);
            lemma_blank_number_bounds(s, q + 1);
            match blank_number_at(s, q + 1) {
                Parsed::Done(_, r) => {
                    lemma_char_tail(s, t, a, d, r, close);
                },
                _ => {},
            }
        },
        _ => {},
    }
}

proof fn lemma_number_bounds(s: Seq<char>, p: int)
    requires
        0 <= p,
    ensures
        number_at(s, p) matches Parsed::Done(_, q) ==> p <= q && (p <= s.len() ==> q <= s.len()),
{
    let a0 = if char_at(s, p, '+') || char_at(s, p, '-') {
        p + 1
    } else {
        p
    };
    if a0 <= s.len() {
        crate::dbc::parser::lemma_skip_class_bounds(s, a0, CharClass::Digit);
        let b = skip_class(s, a0, CharClass::Digit);
        if b + 1 <= s.len() {
            crate::dbc::parser::lemma_skip_class_bounds(s, b + 1, CharClass::Digit);
            let m = skip_class(s, b + 1, CharClass::Digit);
            if m + 2 <= s.len() {
                crate::dbc::parser::lemma_skip_class_bounds(s, m + 2, CharClass::Digit);
            }
            if m + 1 <= s.len() {
                crate::dbc::parser::lemma_skip_class_bounds(s, m + 1, CharClass::Digit);
            }
        }
        if a0 + 1 <= s.len() {
            crate::dbc::parser::lemma_skip_class_bounds(s, a0 + 1, CharClass::Digit);
            let m = skip_class(s, a0 + 1, CharClass::Digit);
            if m + 2 <= s.len() {
                crate::dbc::parser::lemma_skip_class_bounds(s, m + 2, CharClass::Digit);
            }
            if m + 1 <= s.len() {
                crate::dbc::parser::lemma_skip_class_bounds(s, m + 1, CharClass::Digit);
            }
        }
        if b + 2 <= s.len() {
            crate::dbc::parser::lemma_skip_class_bounds(s, b + 2, CharClass::Digit);
        }
        if b + 1 <= s.len() {
            crate::dbc::parser::lemma_skip_class_bounds(s, b + 1, CharClass::Digit);
        }
    }
}

proof fn lemma_blank_number_bounds(s: Seq<char>, p: int)
    requires
        0 <= p,
    ensures
        blank_number_at(s, p) matches Parsed::Done((x, y), q) ==> p <= x <= y && y == q && (p
            <= s.len() ==> q <= s.len()),
{
    if p <= s.len() {
        crate::dbc::parser::lemma_skip_class_bounds(s, p, CharClass::Blank);
    }
    lemma_number_bounds(s, skip_class(s, p, CharClass::Blank));
}


proof fn lemma_find_tail(s: Seq<char>, t: Seq<char>, a: int, d: int, p: int, c: char)
    requires
        tail_eq(s, t, a, d),
        a <= p,
    ensures
        find_char(t, p + d, c) == find_char(s, p, c) + d,
    decreases s.len() - p,
{
    if p < s.len() {
        assert(s[p] == t[p + d]);
        if s[p] != c {
            lemma_find_tail(s, t, a, d, p + 1, c);
        }
    }
}

proof fn lemma_find_ge(s: Seq<char>, p: int, c: char)
    ensures
        find_char(s, p, c) >= p,
        0 <= p <= s.len() ==> find_char(s, p, c) <= s.len(),
    decreases s.len() - p,
{
    if 0 <= p < s.len() && s[p] != c {
        lemma_find_ge(s, p + 1, c);
    }
}

proof fn lemma_quoted_tail(s: Seq<char>, t: Seq<char>, a: int, d: int, p: int)
    requires
        tail_eq(s, t, a, d),
        a <= p,
    ensures
        quoted_at(t, p + d) == (match quoted_at(s, p) {
            Some((x, y, q)) => Some((x + d, y + d, q + d)),
            None => None,
        }),
        quoted_at(s, p) matches Some((x, y, q)) ==> a <= x <= y < q <= s.len(),
{
    lemma_char_tail(s, t, a, d, p, '"');
    lemma_find_tail(s, t, a, d, p + 1, '"');
    lemma_find_ge(s, p + 1, '"');
}

proof fn lemma_layout_tail(s: Seq<char>, t: Seq<char>, a: int, d: int, p: int)
    requires
        tail_eq(s, t, a, d),
        a <= p,
    ensures
        signal_layout(t, p + d) == (match signal_layout(s, p) {
            Some((x, y, o, g, q)) => Some((x, y, o, g, q + d)),
            None => None,
        }),
        signal_layout(s, p) matches Some((x, y, o, g, q)) ==> a <= q <= s.len(),
{
    lemma_skip_tail(s, t, a, d, p, CharClass::Blank);
    lemma_skip_ge(s, p, CharClass::Blank);
    let p0 = skip_class(s, p, CharClass::Blank);
    lemma_uint_tail(s, t, a, d, p0);
    lemma_skip_ge(s, p0, CharClass::Digit);
    match uint_at(s, p0) {
        Some((_, p1)) => {
            lemma_char_tail(s, t, a, d, p1, '|');
            lemma_uint_tail(s, t, a, d, p1 + 1);
            lemma_skip_ge(s, p1 + 1, CharClass::Digit);
            match uint_at(s, p1 + 1) {
                Some((_, p2)) => {
                    lemma_char_tail(s, t, a, d, p2, '@');
                    if p2 + 2 < s.len() {
                        assert(s[p2 + 1] == t[p2 + 1 + d]);
                        assert(s[p2 + 2] == t[p2 + 2 + d]);
                    }
                },
                None => {},
            }
        },
        None => {},
    }
}

proof fn lemma_skip_prefix(s: Seq<char>, t: Seq<char>, b: int, p: int, k: CharClass)
    requires
        head_eq(s, t, b),
        0 <= p,
        skip_class(s, p, k) < b,
    ensures
        skip_class(t, p, k) == skip_class(s, p, k),
    decreases s.len() - p,
{
    lemma_skip_ge(s, p, k);
    if p < s.len() && in_class(s[p], k) {
        assert(s[p] == t[p]);
        lemma_skip_prefix(s, t, b, p + 1, k);
    } else {
        assert(p < b);
        assert(s[p] == t[p]);
    }
}

proof fn lemma_skip_run(s: Seq<char>, p: int, q: int, k: CharClass)
    requires
        0 <= p <= q,
        q <= s.len(),
        forall|i: int| p <= i < q ==> in_class(#[trigger] s[i], k),
    ensures
        skip_class(s, p, k) == skip_class(s, q, k),
    decreases q - p,
{
    if p < q {
        assert(in_class(s[p], k));
        lemma_skip_run(s, p + 1, q, k);
    }
}

/// A multiplexer indicator and the blank after it: `m` and at least one
/// digit, or `M`.
pub open spec fn mux_indicator(m: Seq<char>) -> bool {
    ||| m == seq!['M', ' ']
    ||| {
        &&& m.len() >= 3
        &&& m[0] == 'm'
        &&& m.last() == ' '
        &&& forall|i: int| 1 <= i < m.len() - 1 ==> '0' <= #[trigger] m[i] <= '9'
    }
}

/// Where the colon of a signal line stands in the text after its name and
/// the blanks that follow it: after more blanks.
pub open spec fn colon_next(post: Seq<char>) -> bool {
    skip_class(post, 0, CharClass::Blank) < post.len() && post[skip_class(post, 0, CharClass::Blank)]
        == ':'
}

/// The signal head of a line with a multiplexer indicator inserted after
/// the blanks that follow the name: the same name, and the colon moved by
/// the indicator's length.
#[verifier::spinoff_prover]
#[verifier::rlimit(40)]
proof fn lemma_head_mux(pre: Seq<char>, mux: Seq<char>, post: Seq<char>)
    requires
        signal_head(pre + post, 0) is Some,
        signal_head(pre + post, 0).unwrap().1 < pre.len(),
        forall|i: int|
            signal_head(pre + post, 0).unwrap().1 <= i < pre.len() ==> (#[trigger] pre[i] == ' '
                || pre[i] == '\t'),
        mux_indicator(mux),
        colon_next(post),
    ensures
        ({
            let (na, nb, e) = signal_head(pre + post, 0).unwrap();
            signal_head(pre + mux + post, 0) == Some((na, nb, e + mux.len()))
        }),
        signal_head(pre + post, 0).unwrap().2 == pre.len() + skip_class(post, 0, CharClass::Blank)
            + 1,
{
    let x = pre + post;
    let y = pre + mux + post;
    let (na, nb, e) = signal_head(x, 0).unwrap();
    let b = pre.len() as int;
    let k = mux.len() as int;
    assert(head_eq(x, y, b));
    let p1 = skip_class(x, 0, CharClass::Blank);
    let p2 = p1 + 3;
    let p3 = skip_class(x, p2, CharClass::Blank);
    let p4 = skip_class(x, p3, CharClass::Ident);
    lemma_skip_ge(x, 0, CharClass::Blank);
    lemma_skip_ge(x, p2, CharClass::Blank);
    lemma_skip_ge(x, p3, CharClass::Ident);
    assert(p3 == na && p4 == nb);
    lemma_skip_prefix(x, y, b, 0, CharClass::Blank);
    lemma_skip_prefix(x, y, b, p2, CharClass::Blank);
    lemma_skip_prefix(x, y, b, p3, CharClass::Ident);
    assert(y.subrange(p1, p1 + 3) =~= x.subrange(p1, p1 + 3));
    // the blanks after the name
    let w = skip_class(post, 0, CharClass::Blank);
    lemma_skip_ge(post, 0, CharClass::Blank);
    assert forall|i: int| nb <= i < b implies in_class(#[trigger] x[i], CharClass::Blank) by {
        assert(x[i] == pre[i]);
    }
    assert forall|i: int| nb <= i < b implies in_class(#[trigger] y[i], CharClass::Blank) by {
        assert(y[i] == pre[i]);
    }
    lemma_skip_run(x, nb, b, CharClass::Blank);
    lemma_skip_run(y, nb, b, CharClass::Blank);
    assert(tail_eq(post, x, 0, b));
    assert(tail_eq(post, y, 0, b + k));
    lemma_skip_tail(post, x, 0, b, 0, CharClass::Blank);
    lemma_skip_tail(post, y, 0, b + k, 0, CharClass::Blank);
    // x: no indicator, the colon right after the blanks
    let c = b + w;
    assert(x[c] == post[w]);
    assert(skip_class(x, nb, CharClass::Blank) == c);
    assert(mux_end(x, c) == c);
    assert(skip_class(x, c, CharClass::Blank) == c);
    assert(e == c + 1);
    // y: the indicator, its blank, the blanks, the colon
    assert(y[b] == mux[0]);
    assert(!in_class(y[b], CharClass::Blank));
    assert(skip_class(y, b, CharClass::Blank) == b);
    let m_end = b + k - 1;
    assert(y[m_end] == ' ');
    if mux == seq!['M', ' '] {
        assert(mux_end(y, b) == b + 1);
    } else {
        assert forall|i: int| b + 1 <= i < m_end implies in_class(#[trigger] y[i], CharClass::Digit) by {
            assert(y[i] == mux[i - b]);
        }
        lemma_skip_run(y, b + 1, m_end, CharClass::Digit);
        assert(!in_class(y[m_end], CharClass::Digit));
        assert(skip_class(y, m_end, CharClass::Digit) == m_end);
        assert(y[b + 1] == mux[1]);
        assert(mux_end(y, b) == m_end);
    }
    assert(skip_class(y, m_end, CharClass::Blank) == skip_class(y, b + k, CharClass::Blank));
    assert(y[c + k] == post[w]);
}

/// What a signal line is read as from the end of its bit layout on, with
/// the name and layout already read.
pub open spec fn signal_from(
    s: Seq<char>,
    name: Seq<char>,
    start: u64,
    len: u64,
    order: crate::dbc::signal::ByteOrder,
    signed: bool,
    p2: int,
) -> Parsed<SignalView> {
    let p3 = skip_class(s, p2, CharClass::Blank);
    match number_pair(s, p3, '(', ',', ')') {
        Parsed::Miss => Parsed::Miss,
        Parsed::Abort => Parsed::Abort,
        Parsed::Done((f, o), p4) => {
            let p5 = skip_class(s, p4, CharClass::Blank);
            match number_pair(s, p5, '[', '|', ']') {
                Parsed::Miss => Parsed::Miss,
                Parsed::Abort => Parsed::Abort,
                Parsed::Done((mn, mx), p6) => {
                    let p7 = skip_class(s, p6, CharClass::Blank);
                    match quoted_at(s, p7) {
                        None => Parsed::Miss,
                        Some((ua, ub, p8)) => {
                            let p9 = skip_class(s, p8, CharClass::Blank);
                            let p10 = skip_class(s, p9, CharClass::NotEol);
                            Parsed::Done(
                                SignalView {
                                    name: name,
                                    start_bit: start as u32,
                                    bit_length: len as u32,
                                    byte_order: order,
                                    is_signed: signed,
                                    factor: s.subrange(f.0, f.1),
                                    offset: s.subrange(o.0, o.1),
                                    min: s.subrange(mn.0, mn.1),
                                    max: s.subrange(mx.0, mx.1),
                                    unit: s.subrange(ua, ub),
                                    receivers: crate::dbc::parser::receivers_of(s.subrange(p9, p10)),
                                    value_descriptions: None,
                                },
                                p10,
                            )
                        },
                    }
                },
            }
        },
    }
}

proof fn lemma_signal_at_parts(s: Seq<char>, p0: int)
    ensures
        signal_at(s, p0) == (match signal_head(s, p0) {
            None => Parsed::Miss,
            Some((na, nb, p1)) => match signal_layout(s, p1) {
                None => Parsed::Miss,
                Some((start, len, order, signed, p2)) => signal_from(
                    s,
                    s.subrange(na, nb),
                    start,
                    len,
                    order,
                    signed,
                    p2,
                ),
            },
        }),
{
}

#[verifier::spinoff_prover]
#[verifier::rlimit(40)]
proof fn lemma_signal_from_tail(
    x: Seq<char>,
    y: Seq<char>,
    b: int,
    k: int,
    name: Seq<char>,
    start: u64,
    len: u64,
    order: crate::dbc::signal::ByteOrder,
    signed: bool,
    p2: int,
)
    requires
        tail_eq(x, y, b, k),
        b <= p2,
    ensures
        signal_from(y, name, start, len, order, signed, p2 + k) == shifted(
            signal_from(x, name, start, len, order, signed, p2),
            k,
        ),
{
    lemma_skip_tail(x, y, b, k, p2, CharClass::Blank);
    lemma_skip_ge(x, p2, CharClass::Blank);
    let p3 = skip_class(x, p2, CharClass::Blank);
    lemma_pair_tail(x, y, b, k, p3, '(', ',', ')');
    match number_pair(x, p3, '(', ',', ')') {
        Parsed::Done((f, o), p4) => {
            lemma_sub_tail(x, y, b, k, f.0, f.1);
            lemma_sub_tail(x, y, b, k, o.0, o.1);
            lemma_skip_tail(x, y, b, k, p4, CharClass::Blank);
            lemma_skip_ge(x, p4, CharClass::Blank);
            let p5 = skip_class(x, p4, CharClass::Blank);
            lemma_pair_tail(x, y, b, k, p5, '[', '|', ']');
            match number_pair(x, p5, '[', '|', ']') {
                Parsed::Done((mn, mx), p6) => {
                    lemma_sub_tail(x, y, b, k, mn.0, mn.1);
                    lemma_sub_tail(x, y, b, k, mx.0, mx.1);
                    lemma_skip_tail(x, y, b, k, p6, CharClass::Blank);
                    lemma_skip_ge(x, p6, CharClass::Blank);
                    let p7 = skip_class(x, p6, CharClass::Blank);
                    lemma_quoted_tail(x, y, b, k, p7);
                    match quoted_at(x, p7) {
                        Some((ua, ub, p8)) => {
                            lemma_sub_tail(x, y, b, k, ua, ub);
                            lemma_skip_tail(x, y, b, k, p8, CharClass::Blank);
                            lemma_skip_ge(x, p8, CharClass::Blank);
                            let p9 = skip_class(x, p8, CharClass::Blank);
                            lemma_skip_tail(x, y, b, k, p9, CharClass::NotEol);
                            lemma_skip_ge(x, p9, CharClass::NotEol);
                            let p10 = skip_class(x, p9, CharClass::NotEol);
                            lemma_sub_tail(x, y, b, k, p9, p10);
                        },
                        None => {},
                    }
                },
                _ => {},
            }
        },
        _ => {},
    }
}

/// Inserting a multiplexer indicator (`m` and digits, or `M`) after the
/// blanks that follow a signal's name changes nothing that the signal line
/// is read as: the same signal, read up to the same place in the line.
pub proof fn lemma_mux_indicator_ignored(pre: Seq<char>, mux: Seq<char>, post: Seq<char>)
    requires
        signal_head(pre + post, 0) is Some,
        signal_head(pre + post, 0).unwrap().1 < pre.len(),
        forall|i: int|
            signal_head(pre + post, 0).unwrap().1 <= i < pre.len() ==> (#[trigger] pre[i] == ' '
                || pre[i] == '\t'),
        mux_indicator(mux),
        colon_next(post),
    ensures
        signal_at(pre + mux + post, 0) == shifted(signal_at(pre + post, 0), mux.len() as int),
{
    let x = pre + post;
    let y = pre + mux + post;
    let (na, nb, e) = signal_head(x, 0).unwrap();
    let b = pre.len() as int;
    let k = mux.len() as int;
    lemma_head_mux(pre, mux, post);
    assert(tail_eq(x, y, b, k)) by {
        assert forall|i: int| b <= i < x.len() implies #[trigger] x[i] == y[i + k] by {
            assert(x[i] == post[i - b]);
            assert(y[i + k] == post[i - b]);
        }
    }
    assert(y.subrange(na, nb) =~= x.subrange(na, nb));
    lemma_skip_ge(post, 0, CharClass::Blank);
    assert(e >= b);
    lemma_signal_at_parts(x, 0);
    lemma_signal_at_parts(y, 0);
    lemma_layout_tail(x, y, b, k, e);
    match signal_layout(x, e) {
        None => {},
        Some((start, len, order, signed, p2)) => {
            lemma_signal_from_tail(x, y, b, k, x.subrange(na, nb), start, len, order, signed, p2);
        },
    }
}

} // verus!
