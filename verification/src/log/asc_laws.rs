//! What an ASC log written by `AscWriter` reads back as.
use vstd::prelude::*;

use crate::can::frame::{byte_hex, classic_frame, hex_bytes, Direction, FrameView};
use crate::dbc::parser::{begins_with, skip_class, CharClass};
use crate::log::asc::{
    time_body, time_magnitude, time_negative, relative_time_text,
    asc_frames, asc_header, asc_line, asc_line_frame, classic_id_text, classic_rest, dir_dlc_text, classic_line_frame, dec, direction_of,
    direction_text, fraction_value, hex_tokens, micros_of, pow10, seconds_text, skipped_line,
    spaces, time_ns, trim_x, fd_head, fd_middle, fd_rest, fd_trailer, fd_line_frame, flag_text,
};
use crate::can::frame::fd_frame;
use crate::text::{
    parse_bounded, parse_unsigned, unsigned_body,
    all_radix_digits, digit_char, digits_value, hex_digit_value, is_ascii_whitespace_char,
    is_radix_digit, is_unicode_whitespace, radix_digits, line_len, lines, split_ws, strip_cr, token_len, trim, trim_end, trim_start, zero_pad,
};

verus! {

/// Whether the `White_Space` property agrees with the ASCII whitespace
/// characters on ASCII.
pub open spec fn ascii_whitespace_agrees() -> bool {
    forall|c: char| (c as u32) < 128 ==> (#[trigger] is_unicode_whitespace(c) <==> is_ascii_whitespace_char(c))
}

/// On ASCII, the `White_Space` characters are exactly space, tab, line
/// feed, vertical tab, form feed and carriage return.
pub proof fn lemma_ascii_whitespace_agrees()
    ensures
        ascii_whitespace_agrees(),
{
    reveal(is_unicode_whitespace);
    assert forall|c: char| (c as u32) < 128 implies (#[trigger] is_unicode_whitespace(c)
        <==> is_ascii_whitespace_char(c)) by {}
}

/// A character that reads as a digit in base 16 and is neither whitespace
/// nor `x`.
pub open spec fn plain_digit(c: char) -> bool {
    &&& (c as u32) < 128
    &&& !is_ascii_whitespace_char(c)
    &&& c != 'x'
    &&& c != '.'
    &&& c != '+'
}

proof fn lemma_digit_char(d: nat, upper: bool)
    requires
        d < 16,
    ensures
        hex_digit_value(digit_char(d, upper)) == d,
        plain_digit(digit_char(d, upper)),
        d < 10 ==> '0' <= digit_char(d, upper) <= '9',
        d >= 10 ==> !('0' <= digit_char(d, upper) <= '9'),
{
}


/// The digits of `n` read back as `n`; each is a plain digit, and a
/// decimal one for radix 10.
#[verifier::spinoff_prover]
pub proof fn lemma_radix_digits(n: nat, r: nat, u: bool)
    requires
        r == 10 || r == 16,
    ensures
        radix_digits(n, r, u).len() >= 1,
        all_radix_digits(radix_digits(n, r, u), r),
        digits_value(radix_digits(n, r, u), r) == n,
        forall|i: int|
            0 <= i < radix_digits(n, r, u).len() ==> plain_digit(#[trigger] radix_digits(n, r, u)[i]),
        r == 10 ==> forall|i: int|
            0 <= i < radix_digits(n, r, u).len() ==> '0' <= #[trigger] radix_digits(n, r, u)[i] <= '9',
    decreases n,
{
    let s = radix_digits(n, r, u);
    if n >= r {
        assert(n / r < n) by (nonlinear_arith)
            requires
                r >= 2,
                n >= r,
        ;
        lemma_radix_digits(n / r, r, u);
        lemma_digit_char(n % r, u);
        let init = radix_digits(n / r, r, u);
        assert(s == init + seq![digit_char(n % r, u)]);
        assert(s.drop_last() =~= init);
        assert(n == (n / r) * r + n % r) by (nonlinear_arith)
            requires
                r >= 2,
        ;
        assert forall|i: int| 0 <= i < s.len() implies plain_digit(#[trigger] s[i]) by {
            if i < init.len() {
                assert(s[i] == init[i]);
            }
        }
        assert forall|i: int| 0 <= i < s.len() implies is_radix_digit(#[trigger] s[i], r) by {
            if i < init.len() {
                assert(s[i] == init[i]);
            }
        }
        if r == 10 {
            assert forall|i: int| 0 <= i < s.len() implies '0' <= #[trigger] s[i] <= '9' by {
                if i < init.len() {
                    assert(s[i] == init[i]);
                }
            }
        }
        assert(s.last() == digit_char(n % r, u));
        assert(digits_value(s, r) == digits_value(init, r) * r + hex_digit_value(s.last()) as nat);
    } else {
        lemma_digit_char(n, u);
        assert(s.drop_last() =~= Seq::<char>::empty());
        assert(digits_value(Seq::<char>::empty(), r) == 0);
        assert(digits_value(s, r) == digits_value(s.drop_last(), r) * r + hex_digit_value(s.last()) as nat);
    }
}

proof fn lemma_digits_value_of_zeros(z: Seq<char>, r: nat)
    requires
        forall|i: int| 0 <= i < z.len() ==> #[trigger] z[i] == '0',
    ensures
        digits_value(z, r) == 0,
    decreases z.len(),
{
    if z.len() > 0 {
        lemma_digits_value_of_zeros(z.drop_last(), r);
        assert(z.last() == '0');
        assert(digits_value(z, r) == digits_value(z.drop_last(), r) * r + hex_digit_value(z.last()) as nat);
    }
}

proof fn lemma_digits_value_zero_prefix(z: Seq<char>, s: Seq<char>, r: nat)
    requires
        forall|i: int| 0 <= i < z.len() ==> #[trigger] z[i] == '0',
    ensures
        digits_value(z + s, r) == digits_value(s, r),
    decreases s.len(),
{
    if s.len() == 0 {
        assert(z + s =~= z);
        lemma_digits_value_of_zeros(z, r);
    } else {
        assert((z + s).drop_last() =~= z + s.drop_last());
        lemma_digits_value_zero_prefix(z, s.drop_last(), r);
    }
}

/// Zero padding keeps a digit string's value and its plain digits.
pub proof fn lemma_zero_pad(s: Seq<char>, w: nat, r: nat)
    requires
        r == 10 || r == 16,
        all_radix_digits(s, r),
        forall|i: int| 0 <= i < s.len() ==> plain_digit(#[trigger] s[i]),
        r == 10 ==> forall|i: int| 0 <= i < s.len() ==> '0' <= #[trigger] s[i] <= '9',
    ensures
        zero_pad(s, w).len() == if s.len() >= w {
            s.len()
        } else {
            w
        },
        all_radix_digits(zero_pad(s, w), r),
        digits_value(zero_pad(s, w), r) == digits_value(s, r),
        forall|i: int| 0 <= i < zero_pad(s, w).len() ==> plain_digit(#[trigger] zero_pad(s, w)[i]),
        r == 10 ==> forall|i: int|
            0 <= i < zero_pad(s, w).len() ==> '0' <= #[trigger] zero_pad(s, w)[i] <= '9',
        zero_pad(s, w).len() > 0 && s.len() > 0 ==> zero_pad(s, w).last() == s.last(),
{
    if s.len() < w {
        let z = Seq::new((w - s.len()) as nat, |_i: int| '0');
        let p = zero_pad(s, w);
        assert(p == z + s);
        lemma_digits_value_zero_prefix(z, s, r);
        assert forall|i: int| 0 <= i < p.len() implies plain_digit(#[trigger] p[i]) && is_radix_digit(
            p[i],
            r,
        ) && (r == 10 ==> '0' <= p[i] <= '9') by {
            if i < z.len() {
                assert(p[i] == '0');
            } else {
                assert(p[i] == s[i - z.len()]);
            }
        }
    }
}

// ------------------------------------------------------------------
// Tokens of concatenated text
// ------------------------------------------------------------------
/// No character of `t` is whitespace.
pub open spec fn no_ws(t: Seq<char>) -> bool {
    forall|i: int| 0 <= i < t.len() ==> !is_unicode_whitespace(#[trigger] t[i])
}

/// Every character of `t` is whitespace.
pub open spec fn all_ws(t: Seq<char>) -> bool {
    forall|i: int| 0 <= i < t.len() ==> is_unicode_whitespace(#[trigger] t[i])
}

/// Whitespace (or an end) stands between `a` and `b`.
pub open spec fn separated(a: Seq<char>, b: Seq<char>) -> bool {
    ||| a.len() == 0
    ||| b.len() == 0
    ||| is_unicode_whitespace(a.last())
    ||| is_unicode_whitespace(b[0])
}

proof fn lemma_token_len_facts(s: Seq<char>)
    ensures
        token_len(s) <= s.len(),
        forall|i: int| 0 <= i < token_len(s) ==> !is_unicode_whitespace(#[trigger] s[i]),
        token_len(s) < s.len() ==> is_unicode_whitespace(s[token_len(s) as int]),
    decreases s.len(),
{
    if s.len() > 0 && !is_unicode_whitespace(s[0]) {
        let t = s.drop_first();
        lemma_token_len_facts(t);
        assert forall|i: int| 0 <= i < token_len(s) implies !is_unicode_whitespace(#[trigger] s[i]) by {
            if i > 0 {
                assert(s[i] == t[i - 1]);
            }
        }
        if token_len(s) < s.len() {
            assert(s[token_len(s) as int] == t[token_len(t) as int]);
        }
    }
}

proof fn lemma_token_len_concat(a: Seq<char>, b: Seq<char>)
    requires
        token_len(a) < a.len() || b.len() == 0 || is_unicode_whitespace(b[0]),
    ensures
        token_len(a + b) == token_len(a),
    decreases a.len(),
{
    if a.len() == 0 {
        assert(a + b =~= b);
    } else {
        assert((a + b)[0] == a[0]);
        if !is_unicode_whitespace(a[0]) {
            assert((a + b).drop_first() =~= a.drop_first() + b);
            lemma_token_len_concat(a.drop_first(), b);
        }
    }
}

proof fn lemma_token_len_no_ws(t: Seq<char>)
    requires
        no_ws(t),
    ensures
        token_len(t) == t.len(),
    decreases t.len(),
{
    if t.len() > 0 {
        assert(!is_unicode_whitespace(t[0]));
        assert(no_ws(t.drop_first())) by {
            assert forall|i: int| 0 <= i < t.drop_first().len() implies !is_unicode_whitespace(
                #[trigger] t.drop_first()[i],
            ) by {
                assert(t.drop_first()[i] == t[i + 1]);
            }
        }
        lemma_token_len_no_ws(t.drop_first());
    }
}

/// The tokens of two texts with whitespace (or an end) between them are
/// the tokens of the first, then those of the second.
pub proof fn lemma_split_ws_concat(a: Seq<char>, b: Seq<char>)
    requires
        separated(a, b),
    ensures
        split_ws(a + b) == split_ws(a) + split_ws(b),
    decreases a.len(),
{
    if a.len() == 0 {
        assert(a + b =~= b);
        assert(split_ws(a) + split_ws(b) =~= split_ws(b));
    } else {
        let ab = a + b;
        assert(ab[0] == a[0]);
        if is_unicode_whitespace(a[0]) {
            assert(ab.drop_first() =~= a.drop_first() + b);
            if a.len() > 1 {
                assert(a.drop_first().last() == a.last());
            }
            lemma_split_ws_concat(a.drop_first(), b);
        } else {
            lemma_token_len_facts(a);
            let k = token_len(a);
            if k == a.len() {
                assert(!is_unicode_whitespace(a[a.len() - 1]));
            }
            lemma_token_len_concat(a, b);
            assert(ab.take(k as int) =~= a.take(k as int));
            assert(ab.skip(k as int) =~= a.skip(k as int) + b);
            if k < a.len() {
                assert(a.skip(k as int).last() == a.last());
            }
            lemma_split_ws_concat(a.skip(k as int), b);
            assert(split_ws(ab) =~= seq![a.take(k as int)] + split_ws(a.skip(k as int) + b));
            assert(split_ws(a) =~= seq![a.take(k as int)] + split_ws(a.skip(k as int)));
            assert(split_ws(ab) =~= split_ws(a) + split_ws(b));
        }
    }
}

/// A non-empty text without whitespace is one token.
pub proof fn lemma_split_ws_token(t: Seq<char>)
    requires
        t.len() > 0,
        no_ws(t),
    ensures
        split_ws(t) == seq![t],
{
    lemma_token_len_no_ws(t);
    assert(!is_unicode_whitespace(t[0]));
    assert(t.take(t.len() as int) =~= t);
    assert(t.skip(t.len() as int) =~= Seq::<char>::empty());
    assert(split_ws(Seq::<char>::empty()) =~= Seq::<Seq<char>>::empty());
    assert(split_ws(t) =~= seq![t]);
}

/// Whitespace alone has no tokens.
pub proof fn lemma_split_ws_blank(w: Seq<char>)
    requires
        all_ws(w),
    ensures
        split_ws(w) == Seq::<Seq<char>>::empty(),
    decreases w.len(),
{
    if w.len() > 0 {
        assert(is_unicode_whitespace(w[0]));
        assert(all_ws(w.drop_first())) by {
            assert forall|i: int| 0 <= i < w.drop_first().len() implies is_unicode_whitespace(
                #[trigger] w.drop_first()[i],
            ) by {
                assert(w.drop_first()[i] == w[i + 1]);
            }
        }
        lemma_split_ws_blank(w.drop_first());
    }
}

/// A token, whitespace after it, then more text.
pub proof fn lemma_split_ws_lead(t: Seq<char>, w: Seq<char>, rest: Seq<char>)
    requires
        t.len() > 0,
        no_ws(t),
        w.len() > 0,
        all_ws(w),
    ensures
        split_ws(t + w + rest) == seq![t] + split_ws(rest),
{
    assert(is_unicode_whitespace(w[0]));
    lemma_split_ws_concat(t, w);
    lemma_split_ws_token(t);
    lemma_split_ws_blank(w);
    assert((t + w).last() == w.last());
    assert(is_unicode_whitespace(w[w.len() - 1]));
    lemma_split_ws_concat(t + w, rest);
    assert(split_ws(t) + split_ws(w) =~= seq![t]);
}

// ------------------------------------------------------------------
// Trimming
// ------------------------------------------------------------------
proof fn lemma_split_ws_trim_start(s: Seq<char>)
    ensures
        split_ws(trim_start(s)) == split_ws(s),
    decreases s.len(),
{
    if s.len() > 0 && is_unicode_whitespace(s[0]) {
        lemma_split_ws_trim_start(s.drop_first());
    }
}

proof fn lemma_split_ws_trim_end(s: Seq<char>)
    ensures
        split_ws(trim_end(s)) == split_ws(s),
    decreases s.len(),
{
    if s.len() > 0 && is_unicode_whitespace(s.last()) {
        let w = seq![s.last()];
        assert(s =~= s.drop_last() + w);
        assert(all_ws(w));
        lemma_split_ws_concat(s.drop_last(), w);
        lemma_split_ws_blank(w);
        assert(split_ws(s.drop_last()) + split_ws(w) =~= split_ws(s.drop_last()));
        lemma_split_ws_trim_end(s.drop_last());
    }
}

/// Trimming keeps the tokens.
pub proof fn lemma_split_ws_trim(s: Seq<char>)
    ensures
        split_ws(trim(s)) == split_ws(s),
{
    lemma_split_ws_trim_end(trim_start(s));
    lemma_split_ws_trim_start(s);
}

/// Leading whitespace goes; what follows it is kept from its first
/// non-whitespace character on.
proof fn lemma_trim_start_skip(w: Seq<char>, x: Seq<char>)
    requires
        all_ws(w),
        x.len() > 0,
        !is_unicode_whitespace(x[0]),
    ensures
        trim_start(w + x) == x,
    decreases w.len(),
{
    if w.len() == 0 {
        assert(w + x =~= x);
    } else {
        assert((w + x)[0] == w[0]);
        assert(is_unicode_whitespace(w[0]));
        assert((w + x).drop_first() =~= w.drop_first() + x);
        assert(all_ws(w.drop_first())) by {
            assert forall|i: int| 0 <= i < w.drop_first().len() implies is_unicode_whitespace(
                #[trigger] w.drop_first()[i],
            ) by {
                assert(w.drop_first()[i] == w[i + 1]);
            }
        }
        lemma_trim_start_skip(w.drop_first(), x);
    }
}

/// Trailing whitespace goes up to the last non-whitespace character at
/// `i` or after it: what is left is a prefix longer than `i`.
proof fn lemma_trim_end_keeps(x: Seq<char>, i: int)
    requires
        0 <= i < x.len(),
        !is_unicode_whitespace(x[i]),
    ensures
        i < trim_end(x).len() <= x.len(),
        trim_end(x) == x.take(trim_end(x).len() as int),
    decreases x.len(),
{
    if is_unicode_whitespace(x.last()) {
        let y = x.drop_last();
        assert(i < y.len());
        assert(y[i] == x[i]);
        lemma_trim_end_keeps(y, i);
        assert(y.take(trim_end(y).len() as int) =~= x.take(trim_end(y).len() as int));
    } else {
        assert(x.take(x.len() as int) =~= x);
    }
}

// ------------------------------------------------------------------
// The written numbers read back
// ------------------------------------------------------------------
/// Characters that read as digits (and a few marks) are not whitespace.
proof fn lemma_plain_no_ws(t: Seq<char>)
    requires
        ascii_whitespace_agrees(),
        forall|i: int| 0 <= i < t.len() ==> plain_digit(#[trigger] t[i]),
    ensures
        no_ws(t),
{
    assert forall|i: int| 0 <= i < t.len() implies !is_unicode_whitespace(#[trigger] t[i]) by {
        assert(plain_digit(t[i]));
    }
}

/// A plain digit string reads back as its value.
proof fn lemma_parse_digits(t: Seq<char>, r: nat)
    requires
        t.len() > 0,
        all_radix_digits(t, r),
        forall|i: int| 0 <= i < t.len() ==> plain_digit(#[trigger] t[i]),
    ensures
        parse_unsigned(t, r) == Some(digits_value(t, r)),
{
    assert(plain_digit(t[0]));
    assert(unsigned_body(t) == t);
}

/// The two hexadecimal digits of a byte are one token that reads back as
/// the byte.
pub proof fn lemma_byte_hex(b: u8)
    requires
        ascii_whitespace_agrees(),
    ensures
        byte_hex(b, false).len() > 0,
        no_ws(byte_hex(b, false)),
        parse_bounded(byte_hex(b, false), 16, 255) == Some(b as nat),
{
    let s = radix_digits(b as nat, 16, false);
    lemma_radix_digits(b as nat, 16, false);
    lemma_zero_pad(s, 2, 16);
    lemma_plain_no_ws(byte_hex(b, false));
    lemma_parse_digits(byte_hex(b, false), 16);
}

/// The tokens that `hex_bytes` writes for `data`.
pub open spec fn hex_words(data: Seq<u8>) -> Seq<Seq<char>> {
    Seq::new(data.len(), |i: int| byte_hex(data[i], false))
}

/// The bytes written by `hex_bytes` are one token each, and read back.
#[verifier::spinoff_prover]
pub proof fn lemma_hex_bytes_read(data: Seq<u8>)
    requires
        ascii_whitespace_agrees(),
    ensures
        split_ws(hex_bytes(data, false)) == hex_words(data),
        hex_tokens(hex_words(data)) == data,
        data.len() > 0 ==> no_ws(seq![hex_bytes(data, false).last()]),
        data.len() > 0 ==> hex_bytes(data, false).len() > 0,
        no_nl(hex_bytes(data, false)),
    decreases data.len(),
{
    if data.len() == 0 {
        assert(hex_words(data) =~= Seq::<Seq<char>>::empty());
        assert(split_ws(Seq::<char>::empty()) =~= Seq::<Seq<char>>::empty());
        assert(hex_tokens(Seq::<Seq<char>>::empty()) =~= Seq::<u8>::empty());
        assert(data =~= Seq::<u8>::empty());
    } else {
        let last = data.last();
        let bh = byte_hex(last, false);
        lemma_byte_hex(last);
        let words = hex_words(data);
        assert(words.drop_last() =~= hex_words(data.drop_last()));
        assert(words.last() == bh);
        lemma_hex_bytes_read(data.drop_last());
        assert(data.drop_last().push(last) =~= data);
        assert(hex_tokens(words) == hex_tokens(words.drop_last()) + seq![last]);
        assert(no_ws(seq![bh.last()])) by {
            assert(!is_unicode_whitespace(bh[bh.len() - 1]));
        }
        lemma_no_ws_no_nl(bh);
        if data.len() == 1 {
            lemma_split_ws_token(bh);
            assert(words =~= seq![bh]);
            assert(data[0] == last);
        } else {
            lemma_no_ws_no_nl(seq![' ']);
            lemma_no_nl_concat(seq![' '], bh);
            lemma_no_nl_concat(hex_bytes(data.drop_last(), false), seq![' '] + bh);
            let sp = seq![' '];
            let front = hex_bytes(data.drop_last(), false);
            assert(hex_bytes(data, false) =~= front + (sp + bh));
            assert(is_unicode_whitespace(' '));
            assert(all_ws(sp));
            lemma_split_ws_concat(front, sp + bh);
            assert((sp + bh)[0] == ' ');
            lemma_split_ws_concat(sp, bh);
            lemma_split_ws_blank(sp);
            lemma_split_ws_token(bh);
            assert(split_ws(sp) + split_ws(bh) =~= seq![bh]);
            assert(words =~= hex_words(data.drop_last()) + seq![bh]);
        }
    }
}

proof fn lemma_dec_len(n: nat, k: nat)
    requires
        k >= 1,
        n < pow10(k),
    ensures
        dec(n).len() <= k,
    decreases k,
{
    if n >= 10 {
        let p = pow10((k - 1) as nat);
        assert(n / 10 < p) by (nonlinear_arith)
            requires
                n < 10 * p,
        ;
        if k == 1 {
            assert(pow10(0) == 1);
            assert(false);
        }
        lemma_dec_len(n / 10, (k - 1) as nat);
    }
}

proof fn lemma_skip_digits(t: Seq<char>, n: int, p: int)
    requires
        0 <= p <= n < t.len(),
        forall|i: int| 0 <= i < n ==> '0' <= #[trigger] t[i] <= '9',
        !('0' <= t[n] <= '9'),
    ensures
        skip_class(t, p, CharClass::Digit) == n,
    decreases n - p,
{
    if p < n {
        assert('0' <= t[p] <= '9');
        lemma_skip_digits(t, n, p + 1);
    }
}

/// The signed nanoseconds of a time of `d` nanoseconds rounded to
/// microseconds, negative when `neg` holds.
pub open spec fn rounded_time(neg: bool, d: nat) -> int {
    if neg {
        0 - micros_of(d) * 1000
    } else {
        micros_of(d) * 1000 as int
    }
}

/// A time written with six decimals reads back as the time rounded to
/// microseconds, with its sign, when that fits in an `i64`.
#[verifier::spinoff_prover]
pub proof fn lemma_seconds_read(neg: bool, d: nat)
    requires
        ascii_whitespace_agrees(),
        i64::MIN <= rounded_time(neg, d) <= i64::MAX,
    ensures
        seconds_text(neg, d).len() > 0,
        no_ws(seconds_text(neg, d)),
        seconds_text(neg, d)[0] == '-' || '0' <= seconds_text(neg, d)[0] <= '9',
        time_ns(seconds_text(neg, d)) == Some(rounded_time(neg, d) as i64),
{
    let us = micros_of(d);
    let q = us / 1_000_000;
    let rr = us % 1_000_000;
    let ip = dec(q);
    let fr0 = dec(rr);
    let fr = zero_pad(fr0, 6);
    let u = ip + seq!['.'] + fr;
    let t = seconds_text(neg, d);
    if neg {
        assert(t =~= seq!['-'] + u);
    } else {
        assert(t =~= u);
    }
    lemma_radix_digits(q, 10, false);
    lemma_radix_digits(rr, 10, false);
    reveal_with_fuel(pow10, 7);
    assert(pow10(6) == 1_000_000);
    lemma_dec_len(rr, 6);
    lemma_zero_pad(fr0, 6, 10);
    assert(fr.len() == 6);
    // token shape
    assert(u[0] == ip[0]);
    assert forall|i: int| 0 <= i < u.len() implies !is_unicode_whitespace(#[trigger] u[i]) by {
        if i < ip.len() {
            assert(u[i] == ip[i]);
            assert(plain_digit(ip[i]));
        } else if i == ip.len() {
            assert(u[i] == '.');
        } else {
            assert(u[i] == fr[i - ip.len() - 1]);
            assert(plain_digit(fr[i - ip.len() - 1]));
        }
    }
    if neg {
        assert(!is_unicode_whitespace('-'));
        assert forall|i: int| 0 <= i < t.len() implies !is_unicode_whitespace(#[trigger] t[i]) by {
            if i > 0 {
                assert(t[i] == u[i - 1]);
            }
        }
        assert(t.drop_first() =~= u);
    }
    // reading
    assert(time_body(t) == u);
    assert(time_negative(t) == neg);
    assert forall|i: int| 0 <= i < ip.len() implies '0' <= #[trigger] u[i] <= '9' by {
        assert(u[i] == ip[i]);
    }
    lemma_skip_digits(u, ip.len() as int, 0);
    let k = ip.len() as int;
    let r = u.subrange(k, u.len() as int);
    assert(r[0] == '.');
    assert(r.drop_first() =~= fr);
    assert(u.subrange(0, k) =~= ip);
    assert(fr.take(6) =~= fr);
    assert(pow10(3) == 1000);
    assert(fraction_value(fr) == rr * 1000);
    assert(q * 1_000_000_000 + rr * 1000 == us * 1000) by (nonlinear_arith)
        requires
            q == us / 1_000_000,
            rr == us % 1_000_000,
    ;
    assert(time_magnitude(t) == Some(us * 1000));
}

// ------------------------------------------------------------------
// A classic CAN line
// ------------------------------------------------------------------
/// Whether a frame is written before the log's start.
pub open spec fn before_start(f: FrameView, start: i64) -> bool {
    f.timestamp_ns < start
}

/// How far a frame's time lies from the log's start, in nanoseconds.
pub open spec fn distance(f: FrameView, start: i64) -> nat {
    if f.timestamp_ns >= start {
        (f.timestamp_ns - start) as nat
    } else {
        (start - f.timestamp_ns) as nat
    }
}

/// The time a frame's line reads back as: its time relative to the log's
/// start, rounded to microseconds (halves away from the start).
pub open spec fn read_back_time(f: FrameView, start: i64) -> int {
    rounded_time(before_start(f, start), distance(f, start))
}

/// The frames whose ASC line reads back as the frame itself, its time
/// taken relative to the log's start and rounded to microseconds: frames
/// that are no remote frames, have no error state indicator and whose
/// rounded time fits in an `i64`; classic ones without bit rate switch, on
/// a channel below 255, with no more data bytes than their length code;
/// CAN FD ones on channel 0 (the column is not written), extended exactly
/// when the identifier is above 0x7FF, with at most 64 data bytes.
pub open spec fn reads_back(f: FrameView, start: i64) -> bool {
    &&& !f.is_esi
    &&& !f.is_rtr
    &&& if f.is_fd {
        &&& f.channel == 0
        &&& f.is_extended == (f.id > 0x7FF)
        &&& f.data.len() <= 64
    } else {
        &&& !f.is_brs
        &&& f.channel < 255
        &&& f.data.len() <= f.dlc
    }
    &&& i64::MIN <= read_back_time(f, start) <= i64::MAX
}

/// A frame with its time taken relative to `start`, rounded to
/// microseconds.
pub open spec fn relative_to(f: FrameView, start: i64) -> FrameView {
    FrameView { timestamp_ns: read_back_time(f, start) as i64, ..f }
}

/// The identifier token of a classic line.
pub open spec fn id_token(f: FrameView) -> Seq<char> {
    if f.is_extended {
        zero_pad(radix_digits(f.id as nat, 16, true), 8) + seq!['x']
    } else {
        zero_pad(radix_digits(f.id as nat, 16, true), 3)
    }
}

/// The tokens of a classic line.
pub open spec fn classic_tokens(f: FrameView, start: i64) -> Seq<Seq<char>> {
    seq![
        relative_time_text(f.timestamp_ns, start),
        dec(f.channel as nat + 1),
        id_token(f),
        direction_text(f.direction),
        seq!['d'],
        dec(f.dlc as nat),
    ] + hex_words(f.data)
}

proof fn lemma_spaces(n: nat)
    requires
        ascii_whitespace_agrees(),
    ensures
        all_ws(spaces(n)),
        n > 0 ==> is_unicode_whitespace(spaces(n).last()),
{
    assert(is_unicode_whitespace(' '));
    if n > 0 {
        assert(spaces(n)[n - 1] == ' ');
    }
}

proof fn lemma_dec_token(n: nat)
    requires
        ascii_whitespace_agrees(),
    ensures
        dec(n).len() > 0,
        no_ws(dec(n)),
        '0' <= dec(n)[0] <= '9',
        parse_unsigned(dec(n), 10) == Some(n),
{
    lemma_radix_digits(n, 10, false);
    lemma_plain_no_ws(dec(n));
    lemma_parse_digits(dec(n), 10);
}

proof fn lemma_id_token(f: FrameView)
    requires
        ascii_whitespace_agrees(),
    ensures
        id_token(f).len() > 0,
        no_ws(id_token(f)),
        parse_bounded(trim_x(id_token(f)), 16, u32::MAX as nat) == Some(f.id as nat),
        (id_token(f).last() == 'x') == f.is_extended,
{
    let digits = radix_digits(f.id as nat, 16, true);
    lemma_radix_digits(f.id as nat, 16, true);
    let w: nat = if f.is_extended {
        8
    } else {
        3
    };
    let p = zero_pad(digits, w);
    lemma_zero_pad(digits, w, 16);
    lemma_plain_no_ws(p);
    lemma_parse_digits(p, 16);
    assert(plain_digit(p[p.len() - 1]));
    assert(trim_x(p) == p);
    if f.is_extended {
        let t = p + seq!['x'];
        assert(t.drop_last() =~= p);
        assert(trim_x(t) == trim_x(p));
        assert(!is_unicode_whitespace('x'));
        assert forall|i: int| 0 <= i < t.len() implies !is_unicode_whitespace(#[trigger] t[i]) by {
            if i < p.len() {
                assert(t[i] == p[i]);
            }
        }
    }
}

proof fn lemma_direction_token(d: Direction)
    requires
        ascii_whitespace_agrees(),
    ensures
        direction_text(d).len() > 0,
        no_ws(direction_text(d)),
        direction_of(direction_text(d)) == d,
{
    assert(!is_unicode_whitespace('R'));
    assert(!is_unicode_whitespace('T'));
    assert(!is_unicode_whitespace('x'));
    match d {
        Direction::Rx => {
            assert(seq!['R', 'x'][0] != seq!['T', 'x'][0]);
        },
        Direction::Tx => {},
    }
}

/// A classic line after its two leading spaces, line feed left out.
spec fn classic_body(f: FrameView, start: i64) -> Seq<char> {
    relative_time_text(f.timestamp_ns, start) + seq![' '] + (dec(f.channel as nat + 1) + spaces(2)
        + (id_token(f) + (if f.is_extended {
        spaces(7)
    } else {
        spaces(13)
    }) + (direction_text(f.direction) + seq![' '] + (seq!['d'] + seq![' '] + (dec(f.dlc as nat)
        + seq![' '] + hex_bytes(f.data, false))))))
}

#[verifier::spinoff_prover]
#[verifier::rlimit(40)]
proof fn lemma_classic_shape(f: FrameView, start: i64)
    requires
        !f.is_fd,
    ensures
        asc_line(f, start) == spaces(2) + classic_body(f, start) + seq!['\n'],
        asc_line(f, start).drop_last() == spaces(2) + classic_body(f, start),
{
    let sp: Seq<char> = if f.is_extended {
        spaces(7)
    } else {
        spaces(13)
    };
    assert(classic_id_text(f) =~= id_token(f) + sp);
    let time = relative_time_text(f.timestamp_ns, start);
    assert(asc_line(f, start) == spaces(2) + time + classic_rest(f));
    assert(classic_rest(f) =~= seq![' '] + dec(f.channel as nat + 1) + spaces(2) + (id_token(f) + sp)
        + dir_dlc_text(f) + seq![' '] + hex_bytes(f.data, false) + seq!['\n']);
    assert(asc_line(f, start) =~= spaces(2) + classic_body(f, start) + seq!['\n']);
    assert(asc_line(f, start).drop_last() =~= spaces(2) + classic_body(f, start));
}

#[verifier::spinoff_prover]
#[verifier::rlimit(40)]
proof fn lemma_classic_tokens(f: FrameView, start: i64)
    requires
        ascii_whitespace_agrees(),
        reads_back(f, start),
        !f.is_fd,
    ensures
        split_ws(classic_body(f, start)) == classic_tokens(f, start),
        classic_body(f, start).len() > 0,
        classic_body(f, start)[0] == relative_time_text(f.timestamp_ns, start)[0],
        !is_unicode_whitespace(classic_body(f, start)[0]),
{
    let neg = before_start(f, start);
    let d = distance(f, start);
    let time = relative_time_text(f.timestamp_ns, start);
    assert(time == seconds_text(neg, d));
    let ch = dec(f.channel as nat + 1);
    let id = id_token(f);
    let sp: Seq<char> = if f.is_extended {
        spaces(7)
    } else {
        spaces(13)
    };
    let dir = direction_text(f.direction);
    let dlc = dec(f.dlc as nat);
    let hex = hex_bytes(f.data, false);
    let one = seq![' '];
    let dd = seq!['d'];
    let r5 = dlc + one + hex;
    let r4 = dd + one + r5;
    let r3 = dir + one + r4;
    let r2 = id + sp + r3;
    let r1 = ch + spaces(2) + r2;
    let r0 = time + one + r1;
    assert(classic_body(f, start) == r0);
    lemma_seconds_read(neg, d);
    lemma_dec_token(f.channel as nat + 1);
    lemma_dec_token(f.dlc as nat);
    lemma_id_token(f);
    lemma_direction_token(f.direction);
    lemma_hex_bytes_read(f.data);
    lemma_spaces(2);
    lemma_spaces(7);
    lemma_spaces(13);
    assert(all_ws(one));
    assert(no_ws(dd)) by {
        assert(!is_unicode_whitespace('d'));
    }
    lemma_split_ws_lead(dlc, one, hex);
    lemma_split_ws_lead(dd, one, r5);
    lemma_split_ws_lead(dir, one, r4);
    lemma_split_ws_lead(id, sp, r3);
    lemma_split_ws_lead(ch, spaces(2), r2);
    lemma_split_ws_lead(time, one, r1);
    assert(split_ws(r0) =~= classic_tokens(f, start));
    assert(r0[0] == time[0]);
}

#[verifier::spinoff_prover]
#[verifier::rlimit(40)]
proof fn lemma_classic_no_break(f: FrameView, start: i64)
    requires
        ascii_whitespace_agrees(),
        reads_back(f, start),
        !f.is_fd,
    ensures
        no_nl(classic_body(f, start)),
        classic_body(f, start).last() != '\r',
{
    let neg = before_start(f, start);
    let d = distance(f, start);
    let time = relative_time_text(f.timestamp_ns, start);
    assert(time == seconds_text(neg, d));
    let ch = dec(f.channel as nat + 1);
    let id = id_token(f);
    let sp: Seq<char> = if f.is_extended {
        spaces(7)
    } else {
        spaces(13)
    };
    let dir = direction_text(f.direction);
    let dlc = dec(f.dlc as nat);
    let hex = hex_bytes(f.data, false);
    let one = seq![' '];
    let dd = seq!['d'];
    let r5 = dlc + one + hex;
    let r4 = dd + one + r5;
    let r3 = dir + one + r4;
    let r2 = id + sp + r3;
    let r1 = ch + spaces(2) + r2;
    let r0 = time + one + r1;
    assert(classic_body(f, start) == r0);
    lemma_seconds_read(neg, d);
    lemma_dec_token(f.channel as nat + 1);
    lemma_dec_token(f.dlc as nat);
    lemma_id_token(f);
    lemma_direction_token(f.direction);
    lemma_hex_bytes_read(f.data);
    assert(no_ws(dd)) by {
        assert(!is_unicode_whitespace('d'));
    }
    lemma_no_ws_no_nl(time);
    lemma_no_ws_no_nl(ch);
    lemma_no_ws_no_nl(id);
    lemma_no_ws_no_nl(dir);
    lemma_no_ws_no_nl(dd);
    lemma_no_ws_no_nl(dlc);
    lemma_no_ws_no_nl(one);
    lemma_no_ws_no_nl(sp);
    lemma_no_ws_no_nl(spaces(2));
    lemma_no_nl_concat(dlc, one);
    lemma_no_nl_concat(dlc + one, hex);
    lemma_no_nl_concat(dd, one);
    lemma_no_nl_concat(dd + one, r5);
    lemma_no_nl_concat(dir, one);
    lemma_no_nl_concat(dir + one, r4);
    lemma_no_nl_concat(id, sp);
    lemma_no_nl_concat(id + sp, r3);
    lemma_no_nl_concat(ch, spaces(2));
    lemma_no_nl_concat(ch + spaces(2), r2);
    lemma_no_nl_concat(time, one);
    lemma_no_nl_concat(time + one, r1);
    assert(is_unicode_whitespace('\r'));
    if f.data.len() == 0 {
        assert(r5.last() == ' ');
    } else {
        assert(r5.last() == hex.last());
        assert(!is_unicode_whitespace(seq![hex.last()][0]));
    }
    assert(r4.last() == r5.last());
    assert(r3.last() == r4.last());
    assert(r2.last() == r3.last());
    assert(r1.last() == r2.last());
    assert(r0.last() == r1.last());
}

/// A classic line, line feed left out, splits into its tokens.
#[verifier::spinoff_prover]
proof fn lemma_classic_split(f: FrameView, start: i64)
    requires
        ascii_whitespace_agrees(),
        reads_back(f, start),
        !f.is_fd,
    ensures
        split_ws(asc_line(f, start).drop_last()) == classic_tokens(f, start),
        trim(asc_line(f, start).drop_last())[0] == relative_time_text(f.timestamp_ns, start)[0],
        trim(asc_line(f, start).drop_last()).len() > 0,
        asc_line(f, start).last() == '\n',
        asc_line(f, start) == asc_line(f, start).drop_last() + seq!['\n'],
        no_nl(asc_line(f, start).drop_last()),
        asc_line(f, start).drop_last().len() > 0,
        asc_line(f, start).drop_last().last() != '\r',
{
    let r0 = classic_body(f, start);
    lemma_classic_shape(f, start);
    lemma_classic_tokens(f, start);
    lemma_classic_no_break(f, start);
    lemma_spaces(2);
    lemma_no_ws_no_nl(spaces(2));
    lemma_no_nl_concat(spaces(2), r0);
    lemma_split_ws_concat(spaces(2), r0);
    lemma_split_ws_blank(spaces(2));
    assert(split_ws(spaces(2) + r0) =~= split_ws(r0));
    assert((spaces(2) + r0).last() == r0.last());
    lemma_trim_start_skip(spaces(2), r0);
    lemma_trim_end_keeps(r0, 0);
}

proof fn lemma_not_begins(t: Seq<char>, w: Seq<char>)
    requires
        t.len() > 0,
        w.len() > 0,
        t[0] != w[0],
    ensures
        !begins_with(t, w),
{
    if w.len() <= t.len() {
        assert(t.subrange(0, w.len() as int)[0] == t[0]);
    }
}

#[verifier::spinoff_prover]
proof fn lemma_classic_line_reads_back(f: FrameView, start: i64)
    requires
        reads_back(f, start),
        !f.is_fd,
    ensures
        asc_line(f, start).len() > 0,
        asc_line(f, start).last() == '\n',
        !skipped_line(trim(asc_line(f, start).drop_last())),
        asc_line_frame(trim(asc_line(f, start).drop_last())) == Some(relative_to(f, start)),
{
    lemma_ascii_whitespace_agrees();
    let neg = before_start(f, start);
    let d = distance(f, start);
    let ts = read_back_time(f, start) as i64;
    let t = trim(asc_line(f, start).drop_last());
    lemma_classic_split(f, start);
    assert(relative_time_text(f.timestamp_ns, start) == seconds_text(neg, d));
    lemma_seconds_read(neg, d);
    let c0 = t[0];
    assert(c0 == '-' || '0' <= c0 <= '9');
    lemma_not_begins(t, seq!['d', 'a', 't', 'e']);
    lemma_not_begins(t, seq!['b', 'a', 's', 'e']);
    lemma_not_begins(t, seq!['i', 'n', 't', 'e', 'r', 'n', 'a', 'l']);
    lemma_not_begins(t, seq!['/', '/']);
    lemma_not_begins(t, seq!['B', 'e', 'g', 'i', 'n']);
    lemma_not_begins(t, seq!['E', 'n', 'd']);
    lemma_split_ws_trim(asc_line(f, start).drop_last());
    let parts = split_ws(t);
    assert(parts == classic_tokens(f, start));
    let ch = dec(f.channel as nat + 1);
    lemma_dec_token(f.channel as nat + 1);
    lemma_dec_token(f.dlc as nat);
    lemma_id_token(f);
    lemma_direction_token(f.direction);
    lemma_hex_bytes_read(f.data);
    assert(parts[0] == seconds_text(neg, d));
    assert(time_ns(parts[0]) == Some(ts));
    assert(parts[1] == ch);
    assert(ch[0] != seq!['C', 'A', 'N', 'F', 'D'][0]);
    assert(parts[1] != seq!['C', 'A', 'N', 'F', 'D']);
    assert(parts[2] == id_token(f));
    assert(parts[3] == direction_text(f.direction));
    assert(parts[4] == seq!['d']);
    assert(parts[5] == dec(f.dlc as nat));
    assert(parts.subrange(6, parts.len() as int) =~= hex_words(f.data));
    assert(asc_line_frame(t) == classic_line_frame(parts, ts));
    assert(classic_line_frame(parts, ts) == Some(
        classic_frame(
            ts,
            f.channel,
            f.id,
            f.is_extended,
            f.dlc,
            f.data,
            f.direction,
        ),
    ));
    assert(classic_frame(ts, f.channel, f.id, f.is_extended, f.dlc, f.data, f.direction)
        == relative_to(f, start));
}

// ------------------------------------------------------------------
// A CAN FD line
// ------------------------------------------------------------------
/// The five zero columns that close a CAN FD line.
pub open spec fn zero_columns() -> Seq<Seq<char>> {
    seq![seq!['0'], seq!['0'], seq!['0'], seq!['0'], seq!['0']]
}

/// The identifier token of a CAN FD line.
pub open spec fn fd_id_token(f: FrameView) -> Seq<char> {
    zero_pad(radix_digits(f.id as nat, 16, false), 3)
}

/// The tokens of a CAN FD line.
pub open spec fn fd_tokens(f: FrameView, start: i64) -> Seq<Seq<char>> {
    seq![
        relative_time_text(f.timestamp_ns, start),
        seq!['C', 'A', 'N', 'F', 'D'],
        fd_id_token(f),
        direction_text(f.direction),
        seq!['d'],
        dec(f.dlc as nat),
        dec(f.data.len()),
        flag_text(f.is_brs),
        flag_text(f.is_esi),
    ] + hex_words(f.data) + zero_columns()
}

/// The zero columns, line feed left out.
spec fn zero_trail() -> Seq<char> {
    let z = seq!['0'];
    let w = spaces(4);
    w + z + w + z + w + z + w + z + w + z
}

/// A CAN FD line after its two leading spaces, line feed left out.
spec fn fd_body(f: FrameView, start: i64) -> Seq<char> {
    relative_time_text(f.timestamp_ns, start) + fd_head(f) + fd_middle(f) + hex_bytes(f.data, false)
        + zero_trail()
}

proof fn lemma_fd_shape(f: FrameView, start: i64)
    requires
        f.is_fd,
    ensures
        asc_line(f, start) == spaces(2) + fd_body(f, start) + seq!['\n'],
        asc_line(f, start).drop_last() == spaces(2) + fd_body(f, start),
{
    assert(fd_trailer() =~= zero_trail() + seq!['\n']);
    let time = relative_time_text(f.timestamp_ns, start);
    let rest = fd_head(f) + fd_middle(f) + hex_bytes(f.data, false);
    assert(fd_rest(f) == rest + fd_trailer());
    assert(asc_line(f, start) == spaces(2) + time + (rest + fd_trailer()));
    assert(asc_line(f, start) =~= spaces(2) + fd_body(f, start) + seq!['\n']);
    assert(asc_line(f, start).drop_last() =~= spaces(2) + fd_body(f, start));
}

proof fn lemma_fd_assoc(
    time: Seq<char>,
    canfd: Seq<char>,
    id: Seq<char>,
    dir: Seq<char>,
    dlc: Seq<char>,
    len: Seq<char>,
    brs: Seq<char>,
    esi: Seq<char>,
    r9: Seq<char>,
)
    ensures
        ({
            let one = seq![' '];
            let dd = seq!['d'];
            let r8 = esi + one + r9;
            let r7 = brs + one + r8;
            let r6 = len + one + r7;
            let r5 = dlc + one + r6;
            let r4 = dd + one + r5;
            let r3 = dir + one + r4;
            let r2 = id + spaces(13) + r3;
            let r1 = canfd + spaces(3) + r2;
            time + (one + canfd + spaces(3) + id + spaces(13) + (dir + one + dd + one + dlc)) + (one
                + len + one + brs + one + esi + one) + r9 == time + one + r1
        }),
{
    let one = seq![' '];
    let dd = seq!['d'];
    let r8 = esi + one + r9;
    let r7 = brs + one + r8;
    let r6 = len + one + r7;
    let r5 = dlc + one + r6;
    let r4 = dd + one + r5;
    let r3 = dir + one + r4;
    let r2 = id + spaces(13) + r3;
    let r1 = canfd + spaces(3) + r2;
    let x = one + r6;
    let m = one + len + one + brs + one + esi + one;
    assert(m + r9 =~= x);
    let dt = dir + one + dd + one + dlc;
    let a = one + canfd + spaces(3) + id + spaces(13);
    assert(r5 =~= dlc + x);
    assert(dt + x =~= r3);
    assert(a + dt + x =~= a + (dt + x));
    assert(a + r3 =~= one + r1);
    assert(time + (a + dt) + m + r9 =~= time + (a + dt + (m + r9)));
}

/// The pieces of a CAN FD line, nested so that each token is followed by
/// its whitespace.
proof fn lemma_fd_pieces(f: FrameView, start: i64)
    requires
        f.is_fd,
    ensures
        ({
            let one = seq![' '];
            let r9 = hex_bytes(f.data, false) + zero_trail();
            let r8 = flag_text(f.is_esi) + one + r9;
            let r7 = flag_text(f.is_brs) + one + r8;
            let r6 = dec(f.data.len()) + one + r7;
            let r5 = dec(f.dlc as nat) + one + r6;
            let r4 = seq!['d'] + one + r5;
            let r3 = direction_text(f.direction) + one + r4;
            let r2 = fd_id_token(f) + spaces(13) + r3;
            let r1 = seq!['C', 'A', 'N', 'F', 'D'] + spaces(3) + r2;
            fd_body(f, start) == relative_time_text(f.timestamp_ns, start) + one + r1
        }),
{
    let one = seq![' '];
    let canfd = seq!['C', 'A', 'N', 'F', 'D'];
    let dir = direction_text(f.direction);
    let dd = seq!['d'];
    let dlc = dec(f.dlc as nat);
    let len = dec(f.data.len());
    let brs = flag_text(f.is_brs);
    let esi = flag_text(f.is_esi);
    let id = fd_id_token(f);
    assert(crate::log::asc::dir_dlc_text(f) =~= dir + one + dd + one + dlc);
    assert(fd_head(f) =~= one + canfd + spaces(3) + id + spaces(13) + (dir + one + dd + one + dlc));
    assert(fd_middle(f) =~= one + len + one + brs + one + esi + one);
    let r9 = hex_bytes(f.data, false) + zero_trail();
    assert(fd_body(f, start) =~= relative_time_text(f.timestamp_ns, start) + fd_head(f) + fd_middle(f)
        + r9);
    lemma_fd_assoc(relative_time_text(f.timestamp_ns, start), canfd, id, dir, dlc, len, brs, esi, r9);
}

proof fn lemma_flag_token(b: bool)
    requires
        ascii_whitespace_agrees(),
    ensures
        flag_text(b).len() > 0,
        no_ws(flag_text(b)),
        (flag_text(b) == seq!['1']) == b,
{
    assert(!is_unicode_whitespace('1'));
    assert(!is_unicode_whitespace('0'));
    if !b {
        assert(flag_text(b)[0] != seq!['1'][0]);
    }
}

proof fn lemma_fd_id(f: FrameView)
    requires
        ascii_whitespace_agrees(),
    ensures
        fd_id_token(f).len() > 0,
        no_ws(fd_id_token(f)),
        parse_bounded(fd_id_token(f), 16, u32::MAX as nat) == Some(f.id as nat),
{
    let digits = radix_digits(f.id as nat, 16, false);
    lemma_radix_digits(f.id as nat, 16, false);
    lemma_zero_pad(digits, 3, 16);
    lemma_plain_no_ws(fd_id_token(f));
    lemma_parse_digits(fd_id_token(f), 16);
}

proof fn lemma_zero_trail()
    requires
        ascii_whitespace_agrees(),
    ensures
        split_ws(zero_trail()) == zero_columns(),
        zero_trail().len() > 0,
        is_unicode_whitespace(zero_trail()[0]),
        no_nl(zero_trail()),
        zero_trail().last() == '0',
{
    let z = seq!['0'];
    let w = spaces(4);
    lemma_spaces(4);
    assert(!is_unicode_whitespace('0'));
    assert(no_ws(z));
    let t1 = w + z;
    let t2 = w + (z + t1);
    let t3 = w + (z + t2);
    let t4 = w + (z + t3);
    let t5 = w + (z + t4);
    assert(zero_trail() =~= t5);
    assert(w[0] == ' ');
    lemma_split_ws_token(z);
    lemma_split_ws_blank(w);
    lemma_split_ws_concat(w, z);
    lemma_split_ws_lead(z, w, z);
    assert(z + t1 == z + w + z);
    lemma_split_ws_lead(z, w, z + t1);
    assert(z + t2 == z + w + (z + t1));
    lemma_split_ws_lead(z, w, z + t2);
    assert(z + t3 == z + w + (z + t2));
    lemma_split_ws_lead(z, w, z + t3);
    assert(z + t4 == z + w + (z + t3));
    lemma_split_ws_concat(w, z + t4);
    assert(split_ws(t5) =~= zero_columns());
    lemma_no_ws_no_nl(w);
    lemma_no_ws_no_nl(z);
    lemma_no_nl_concat(w, z);
    lemma_no_nl_concat(z, t1);
    lemma_no_nl_concat(w, z + t1);
    lemma_no_nl_concat(z, t2);
    lemma_no_nl_concat(w, z + t2);
    lemma_no_nl_concat(z, t3);
    lemma_no_nl_concat(w, z + t3);
    lemma_no_nl_concat(z, t4);
    lemma_no_nl_concat(w, z + t4);
    assert(t5.last() == '0');
}

#[verifier::spinoff_prover]
#[verifier::rlimit(60)]
proof fn lemma_fd_tokens(f: FrameView, start: i64)
    requires
        ascii_whitespace_agrees(),
        reads_back(f, start),
        f.is_fd,
    ensures
        split_ws(fd_body(f, start)) == fd_tokens(f, start),
        fd_body(f, start).len() > 0,
        fd_body(f, start)[0] == relative_time_text(f.timestamp_ns, start)[0],
        !is_unicode_whitespace(fd_body(f, start)[0]),
        no_nl(fd_body(f, start)),
        fd_body(f, start).last() == '0',
{
    let neg = before_start(f, start);
    let d = distance(f, start);
    let time = relative_time_text(f.timestamp_ns, start);
    assert(time == seconds_text(neg, d));
    let one = seq![' '];
    let canfd = seq!['C', 'A', 'N', 'F', 'D'];
    let id = fd_id_token(f);
    let dir = direction_text(f.direction);
    let dd = seq!['d'];
    let dlc = dec(f.dlc as nat);
    let len = dec(f.data.len());
    let brs = flag_text(f.is_brs);
    let esi = flag_text(f.is_esi);
    let hex = hex_bytes(f.data, false);
    let tr = zero_trail();
    let r9 = hex + tr;
    let r8 = esi + one + r9;
    let r7 = brs + one + r8;
    let r6 = len + one + r7;
    let r5 = dlc + one + r6;
    let r4 = dd + one + r5;
    let r3 = dir + one + r4;
    let r2 = id + spaces(13) + r3;
    let r1 = canfd + spaces(3) + r2;
    let r0 = time + one + r1;
    lemma_fd_pieces(f, start);
    assert(fd_body(f, start) == r0);
    lemma_seconds_read(neg, d);
    lemma_fd_id(f);
    lemma_direction_token(f.direction);
    lemma_dec_token(f.dlc as nat);
    lemma_dec_token(f.data.len());
    lemma_flag_token(f.is_brs);
    lemma_flag_token(f.is_esi);
    lemma_hex_bytes_read(f.data);
    lemma_zero_trail();
    lemma_spaces(3);
    lemma_spaces(13);
    assert(all_ws(one));
    assert(no_ws(dd)) by {
        assert(!is_unicode_whitespace('d'));
    }
    assert(no_ws(canfd)) by {
        assert(!is_unicode_whitespace('C'));
        assert(!is_unicode_whitespace('A'));
        assert(!is_unicode_whitespace('N'));
        assert(!is_unicode_whitespace('F'));
        assert(!is_unicode_whitespace('D'));
    }
    lemma_split_ws_concat(hex, tr);
    lemma_split_ws_lead(esi, one, r9);
    lemma_split_ws_lead(brs, one, r8);
    lemma_split_ws_lead(len, one, r7);
    lemma_split_ws_lead(dlc, one, r6);
    lemma_split_ws_lead(dd, one, r5);
    lemma_split_ws_lead(dir, one, r4);
    lemma_split_ws_lead(id, spaces(13), r3);
    lemma_split_ws_lead(canfd, spaces(3), r2);
    lemma_split_ws_lead(time, one, r1);
    assert(split_ws(r0) =~= fd_tokens(f, start));
    assert(r0[0] == time[0]);
    // no line break inside
    lemma_no_ws_no_nl(time);
    lemma_no_ws_no_nl(one);
    lemma_no_ws_no_nl(canfd);
    lemma_no_ws_no_nl(spaces(3));
    lemma_no_ws_no_nl(id);
    lemma_no_ws_no_nl(spaces(13));
    lemma_no_ws_no_nl(dir);
    lemma_no_ws_no_nl(dd);
    lemma_no_ws_no_nl(dlc);
    lemma_no_ws_no_nl(len);
    lemma_no_ws_no_nl(brs);
    lemma_no_ws_no_nl(esi);
    lemma_no_nl_concat(hex, tr);
    lemma_no_nl_concat(esi, one);
    lemma_no_nl_concat(esi + one, r9);
    lemma_no_nl_concat(brs, one);
    lemma_no_nl_concat(brs + one, r8);
    lemma_no_nl_concat(len, one);
    lemma_no_nl_concat(len + one, r7);
    lemma_no_nl_concat(dlc, one);
    lemma_no_nl_concat(dlc + one, r6);
    lemma_no_nl_concat(dd, one);
    lemma_no_nl_concat(dd + one, r5);
    lemma_no_nl_concat(dir, one);
    lemma_no_nl_concat(dir + one, r4);
    lemma_no_nl_concat(id, spaces(13));
    lemma_no_nl_concat(id + spaces(13), r3);
    lemma_no_nl_concat(canfd, spaces(3));
    lemma_no_nl_concat(canfd + spaces(3), r2);
    lemma_no_nl_concat(time, one);
    lemma_no_nl_concat(time + one, r1);
    assert(r9.last() == '0');
    assert(r0.last() == r9.last());
}

/// The line of a frame that reads back: one line, its line feed last.
proof fn lemma_line_shape(f: FrameView, start: i64)
    requires
        reads_back(f, start),
    ensures
        asc_line(f, start).last() == '\n',
        asc_line(f, start) == asc_line(f, start).drop_last() + seq!['\n'],
        no_nl(asc_line(f, start).drop_last()),
        asc_line(f, start).drop_last().len() > 0,
        asc_line(f, start).drop_last().last() != '\r',
        trim(asc_line(f, start).drop_last()).len() > 0,
        trim(asc_line(f, start).drop_last())[0] == relative_time_text(f.timestamp_ns, start)[0],
{
    lemma_ascii_whitespace_agrees();
    if f.is_fd {
        let r0 = fd_body(f, start);
        lemma_fd_shape(f, start);
        lemma_fd_tokens(f, start);
        lemma_spaces(2);
        lemma_no_ws_no_nl(spaces(2));
        lemma_no_nl_concat(spaces(2), r0);
        assert((spaces(2) + r0).last() == r0.last());
        lemma_trim_start_skip(spaces(2), r0);
        lemma_trim_end_keeps(r0, 0);
    } else {
        lemma_classic_split(f, start);
    }
}

#[verifier::spinoff_prover]
#[verifier::rlimit(40)]
proof fn lemma_fd_line_reads_back(f: FrameView, start: i64)
    requires
        reads_back(f, start),
        f.is_fd,
    ensures
        !skipped_line(trim(asc_line(f, start).drop_last())),
        asc_line_frame(trim(asc_line(f, start).drop_last())) == Some(relative_to(f, start)),
{
    lemma_ascii_whitespace_agrees();
    let neg = before_start(f, start);
    let d = distance(f, start);
    let ts = read_back_time(f, start) as i64;
    let l = asc_line(f, start).drop_last();
    let t = trim(l);
    lemma_line_shape(f, start);
    assert(relative_time_text(f.timestamp_ns, start) == seconds_text(neg, d));
    lemma_seconds_read(neg, d);
    let c0 = t[0];
    assert(c0 == '-' || '0' <= c0 <= '9');
    lemma_not_begins(t, seq!['d', 'a', 't', 'e']);
    lemma_not_begins(t, seq!['b', 'a', 's', 'e']);
    lemma_not_begins(t, seq!['i', 'n', 't', 'e', 'r', 'n', 'a', 'l']);
    lemma_not_begins(t, seq!['/', '/']);
    lemma_not_begins(t, seq!['B', 'e', 'g', 'i', 'n']);
    lemma_not_begins(t, seq!['E', 'n', 'd']);
    lemma_fd_shape(f, start);
    lemma_fd_tokens(f, start);
    lemma_spaces(2);
    lemma_split_ws_concat(spaces(2), fd_body(f, start));
    lemma_split_ws_blank(spaces(2));
    lemma_split_ws_trim(l);
    let parts = split_ws(t);
    assert(parts =~= fd_tokens(f, start));
    let n = f.data.len();
    lemma_fd_id(f);
    lemma_dec_token(f.dlc as nat);
    lemma_dec_token(n);
    lemma_flag_token(f.is_brs);
    lemma_hex_bytes_read(f.data);
    assert(parts.len() == 14 + n);
    assert(parts[0] == seconds_text(neg, d));
    assert(time_ns(parts[0]) == Some(ts));
    assert(parts[1] == seq!['C', 'A', 'N', 'F', 'D']);
    assert(parts[2] == fd_id_token(f));
    assert(parts[3] == direction_text(f.direction));
    assert(parts[5] == dec(f.dlc as nat));
    assert(parts[6] == dec(n));
    assert(parse_bounded(parts[6], 10, usize::MAX as nat) == Some(n));
    assert(parts[7] == flag_text(f.is_brs));
    if n > 0 {
        assert(parts.subrange(9, 9 + n as int) =~= hex_words(f.data));
    } else {
        assert(f.data =~= Seq::<u8>::empty());
    }
    assert(asc_line_frame(t) == fd_line_frame(parts, ts));
    assert(fd_line_frame(parts, ts) == Some(
        fd_frame(ts, 0, f.id, f.id > 0x7FF, f.is_brs, f.dlc, f.data, f.direction),
    ));
    assert(fd_frame(ts, 0, f.id, f.id > 0x7FF, f.is_brs, f.dlc, f.data, f.direction)
        == relative_to(f, start));
}

/// The ASC line of a frame that reads back is one line (its line feed
/// last, no other in it), is not skipped as a header or comment, and
/// reads back as the frame, its time taken relative to the log's start
/// and rounded to microseconds (negative before the start).
pub proof fn lemma_asc_line_reads_back(f: FrameView, start: i64)
    requires
        reads_back(f, start),
    ensures
        asc_line(f, start).len() > 0,
        asc_line(f, start).last() == '\n',
        !skipped_line(trim(asc_line(f, start).drop_last())),
        asc_line_frame(trim(asc_line(f, start).drop_last())) == Some(relative_to(f, start)),
{
    if f.is_fd {
        lemma_line_shape(f, start);
        lemma_fd_line_reads_back(f, start);
    } else {
        lemma_classic_line_reads_back(f, start);
    }
}

// ------------------------------------------------------------------
// Lines
// ------------------------------------------------------------------
/// No line feed in `t`.
pub open spec fn no_nl(t: Seq<char>) -> bool {
    forall|i: int| 0 <= i < t.len() ==> #[trigger] t[i] != '\n'
}

proof fn lemma_no_nl_concat(a: Seq<char>, b: Seq<char>)
    requires
        no_nl(a),
        no_nl(b),
    ensures
        no_nl(a + b),
{
    assert forall|i: int| 0 <= i < (a + b).len() implies #[trigger] (a + b)[i] != '\n' by {
        if i < a.len() {
            assert((a + b)[i] == a[i]);
        } else {
            assert((a + b)[i] == b[i - a.len()]);
        }
    }
}

proof fn lemma_no_ws_no_nl(t: Seq<char>)
    requires
        ascii_whitespace_agrees(),
        no_ws(t) || forall|i: int| 0 <= i < t.len() ==> #[trigger] t[i] == ' ',
    ensures
        no_nl(t),
{
    assert(is_unicode_whitespace('\n'));
    assert forall|i: int| 0 <= i < t.len() implies #[trigger] t[i] != '\n' by {
        if no_ws(t) {
            assert(!is_unicode_whitespace(t[i]));
        } else {
            assert(t[i] == ' ');
        }
    }
}

proof fn lemma_line_len_facts(s: Seq<char>)
    ensures
        line_len(s) <= s.len(),
        forall|i: int| 0 <= i < line_len(s) ==> #[trigger] s[i] != '\n',
        line_len(s) < s.len() ==> s[line_len(s) as int] == '\n',
    decreases s.len(),
{
    if s.len() > 0 && s[0] != '\n' {
        let t = s.drop_first();
        lemma_line_len_facts(t);
        assert forall|i: int| 0 <= i < line_len(s) implies #[trigger] s[i] != '\n' by {
            if i > 0 {
                assert(s[i] == t[i - 1]);
            }
        }
        if line_len(s) < s.len() {
            assert(s[line_len(s) as int] == t[line_len(t) as int]);
        }
    }
}

proof fn lemma_line_len_concat(a: Seq<char>, b: Seq<char>)
    requires
        line_len(a) < a.len() || b.len() == 0 || b[0] == '\n',
    ensures
        line_len(a + b) == line_len(a),
    decreases a.len(),
{
    if a.len() == 0 {
        assert(a + b =~= b);
    } else {
        assert((a + b)[0] == a[0]);
        if a[0] != '\n' {
            assert((a + b).drop_first() =~= a.drop_first() + b);
            lemma_line_len_concat(a.drop_first(), b);
        }
    }
}

/// Text made of whole lines, then more text: its lines are those of the
/// first, then those of the second.
pub proof fn lemma_lines_concat(a: Seq<char>, b: Seq<char>)
    requires
        a.len() == 0 || a.last() == '\n',
    ensures
        lines(a + b) == lines(a) + lines(b),
    decreases a.len(),
{
    if a.len() == 0 {
        assert(a + b =~= b);
        assert(lines(a) + lines(b) =~= lines(b));
    } else {
        lemma_line_len_facts(a);
        let k = line_len(a) as int;
        if k == a.len() {
            assert(a[a.len() - 1] != '\n');
        }
        lemma_line_len_concat(a, b);
        let ab = a + b;
        assert(ab.take(k) =~= a.take(k));
        assert(ab.skip(k + 1) =~= a.skip(k + 1) + b);
        if k + 1 < a.len() {
            assert(a.skip(k + 1).last() == a.last());
        }
        lemma_lines_concat(a.skip(k + 1), b);
        assert(lines(ab) =~= seq![strip_cr(a.take(k))] + lines(a.skip(k + 1) + b));
        assert(lines(a) =~= seq![strip_cr(a.take(k))] + lines(a.skip(k + 1)));
        assert(lines(ab) =~= lines(a) + lines(b));
    }
}

/// One line and its line feed.
pub proof fn lemma_one_line(x: Seq<char>)
    requires
        no_nl(x),
    ensures
        lines(x + seq!['\n']) == seq![strip_cr(x)],
{
    let s = x + seq!['\n'];
    lemma_line_len_facts(s);
    if line_len(s) < x.len() {
        assert(s[line_len(s) as int] == x[line_len(s) as int]);
    }
    assert(s[x.len() as int] == '\n');
    assert(line_len(s) == x.len());
    assert(s.take(x.len() as int) =~= x);
    assert(s.skip(x.len() as int + 1) =~= Seq::<char>::empty());
    assert(lines(Seq::<char>::empty()) =~= Seq::<Seq<char>>::empty());
    assert(lines(s) =~= seq![strip_cr(x)]);
}

// ------------------------------------------------------------------
// A whole log
// ------------------------------------------------------------------
/// The lines that `AscWriter` writes for `fs`, in order.
pub open spec fn asc_body(fs: Seq<FrameView>, start: i64) -> Seq<char>
    decreases fs.len(),
{
    if fs.len() == 0 {
        seq![]
    } else {
        asc_body(fs.drop_last(), start) + asc_line(fs.last(), start)
    }
}

spec fn base_line() -> Seq<char> {
    seq![
        'b', 'a', 's', 'e', ' ', 'h', 'e', 'x', ' ', ' ', 't', 'i', 'm', 'e', 's', 't', 'a', 'm',
        'p', 's', ' ', 'a', 'b', 's', 'o', 'l', 'u', 't', 'e',
    ]
}

spec fn internal_line() -> Seq<char> {
    seq![
        'i', 'n', 't', 'e', 'r', 'n', 'a', 'l', ' ', 'e', 'v', 'e', 'n', 't', 's', ' ', 'l', 'o',
        'g', 'g', 'e', 'd',
    ]
}

spec fn comment_line() -> Seq<char> {
    seq!['/', '/', ' ', 'C', 'A', 'N', 'k', 'o', 'r', 'o', ' ', 'A', 'S', 'C', ' ', 'L', 'o', 'g']
}

/// A header line is skipped when it begins with the word `w`, whose last
/// character is not whitespace.
proof fn lemma_header_line_skipped(x: Seq<char>, w: Seq<char>)
    requires
        w.len() > 0,
        w.len() <= x.len(),
        x.subrange(0, w.len() as int) == w,
        !is_unicode_whitespace(w[0]),
        !is_unicode_whitespace(w.last()),
    ensures
        begins_with(trim(x), w),
{
    assert(x[0] == w[0]);
    assert(trim_start(x) == x);
    assert(x[w.len() - 1] == w.last());
    lemma_trim_end_keeps(x, w.len() - 1);
    let t = trim(x);
    assert(t.subrange(0, w.len() as int) =~= x.subrange(0, w.len() as int));
}

#[verifier::spinoff_prover]
proof fn lemma_header_frames(date: Seq<char>, body: Seq<char>)
    requires
        ascii_whitespace_agrees(),
        no_nl(date),
    ensures
        lines(asc_header(date) + body) == seq![
            strip_cr(seq!['d', 'a', 't', 'e', ' '] + date),
            base_line(),
            internal_line(),
            comment_line(),
        ] + lines(body),
        asc_frames(
            seq![
                strip_cr(seq!['d', 'a', 't', 'e', ' '] + date),
                base_line(),
                internal_line(),
                comment_line(),
            ],
        ) == Seq::<FrameView>::empty(),
        asc_header(date).len() > 0,
        asc_header(date).last() == '\n',
{
    let nl = seq!['\n'];
    let dl = seq!['d', 'a', 't', 'e', ' '] + date;
    let a1 = dl + nl;
    let a2 = base_line() + nl;
    let a3 = internal_line() + nl;
    let a4 = comment_line() + nl;
    assert(asc_header(date) + body =~= a1 + (a2 + (a3 + (a4 + body))));
    assert(asc_header(date) =~= a1 + (a2 + (a3 + a4)));
    assert(no_nl(base_line())) by {
        assert forall|i: int| 0 <= i < base_line().len() implies #[trigger] base_line()[i] != '\n' by {}
    }
    assert(no_nl(internal_line())) by {
        assert forall|i: int| 0 <= i < internal_line().len() implies #[trigger] internal_line()[i] != '\n' by {}
    }
    assert(no_nl(comment_line())) by {
        assert forall|i: int| 0 <= i < comment_line().len() implies #[trigger] comment_line()[i] != '\n' by {}
    }
    let dw = seq!['d', 'a', 't', 'e', ' '];
    assert(no_nl(dw)) by {
        assert forall|i: int| 0 <= i < 5 implies #[trigger] dw[i] != '\n' by {}
    }
    lemma_no_nl_concat(dw, date);
    lemma_one_line(dl);
    lemma_one_line(base_line());
    lemma_one_line(internal_line());
    lemma_one_line(comment_line());
    lemma_lines_concat(a4, body);
    lemma_lines_concat(a3, a4 + body);
    lemma_lines_concat(a2, a3 + (a4 + body));
    lemma_lines_concat(a1, a2 + (a3 + (a4 + body)));
    assert(strip_cr(base_line()) == base_line());
    assert(strip_cr(internal_line()) == internal_line());
    assert(strip_cr(comment_line()) == comment_line());
    assert(lines(asc_header(date) + body) =~= seq![
        strip_cr(dl),
        base_line(),
        internal_line(),
        comment_line(),
    ] + lines(body));
    // every header line is skipped
    assert(!is_unicode_whitespace('d'));
    assert(!is_unicode_whitespace('e'));
    assert(!is_unicode_whitespace('b'));
    assert(!is_unicode_whitespace('i'));
    assert(!is_unicode_whitespace('l'));
    assert(!is_unicode_whitespace('/'));
    let sd = strip_cr(dl);
    assert(sd.len() >= 4 && sd.subrange(0, 4) =~= seq!['d', 'a', 't', 'e']) by {
        if dl.len() > 0 && dl.last() == '\r' {
            assert(date.len() > 0);
        }
        assert(sd[0] == 'd' && sd[1] == 'a' && sd[2] == 't' && sd[3] == 'e');
    }
    lemma_header_line_skipped(sd, seq!['d', 'a', 't', 'e']);
    assert(base_line().subrange(0, 4) =~= seq!['b', 'a', 's', 'e']);
    lemma_header_line_skipped(base_line(), seq!['b', 'a', 's', 'e']);
    assert(internal_line().subrange(0, 8) =~= seq!['i', 'n', 't', 'e', 'r', 'n', 'a', 'l']);
    lemma_header_line_skipped(internal_line(), seq!['i', 'n', 't', 'e', 'r', 'n', 'a', 'l']);
    assert(comment_line().subrange(0, 2) =~= seq!['/', '/']);
    lemma_header_line_skipped(comment_line(), seq!['/', '/']);
    let h1 = seq![sd];
    let h2 = h1.push(base_line());
    let h3 = h2.push(internal_line());
    let hl = h3.push(comment_line());
    assert(hl =~= seq![sd, base_line(), internal_line(), comment_line()]);
    assert(h1.drop_last() =~= Seq::<Seq<char>>::empty());
    assert(skipped_line(trim(sd)));
    assert(asc_frames(Seq::<Seq<char>>::empty()) =~= Seq::<FrameView>::empty());
    assert(h1.last() == sd);
    assert(asc_frames(h1) =~= Seq::<FrameView>::empty());
    assert(hl.drop_last() =~= h3);
    assert(h3.drop_last() =~= h2);
    assert(h2.drop_last() =~= h1);
    assert(skipped_line(trim(base_line())));
    assert(asc_frames(h2) =~= Seq::<FrameView>::empty());
    assert(skipped_line(trim(internal_line())));
    assert(asc_frames(h3) =~= Seq::<FrameView>::empty());
    assert(skipped_line(trim(comment_line())));
    assert(asc_frames(hl) =~= Seq::<FrameView>::empty());
}

#[verifier::spinoff_prover]
proof fn lemma_body_frames(hdr: Seq<Seq<char>>, fs: Seq<FrameView>, start: i64)
    requires
        ascii_whitespace_agrees(),
        asc_frames(hdr) == Seq::<FrameView>::empty(),
        forall|i: int| 0 <= i < fs.len() ==> reads_back(#[trigger] fs[i], start),
    ensures
        asc_body(fs, start).len() == 0 || asc_body(fs, start).last() == '\n',
        asc_frames(hdr + lines(asc_body(fs, start))) == fs.map_values(
            |f: FrameView| relative_to(f, start),
        ),
    decreases fs.len(),
{
    if fs.len() == 0 {
        assert(asc_body(fs, start) =~= Seq::<char>::empty());
        assert(lines(Seq::<char>::empty()) =~= Seq::<Seq<char>>::empty());
        assert(hdr + Seq::<Seq<char>>::empty() =~= hdr);
        assert(fs.map_values(|f: FrameView| relative_to(f, start)) =~= Seq::<FrameView>::empty());
    } else {
        let dl = fs.drop_last();
        let f = fs.last();
        assert(reads_back(fs[fs.len() - 1], start));
        assert forall|i: int| 0 <= i < dl.len() implies reads_back(#[trigger] dl[i], start) by {
            assert(dl[i] == fs[i]);
        }
        lemma_body_frames(hdr, dl, start);
        lemma_line_shape(f, start);
        lemma_asc_line_reads_back(f, start);
        let line = asc_line(f, start);
        let l = line.drop_last();
        let before = asc_body(dl, start);
        assert(asc_body(fs, start) == before + line);
        lemma_lines_concat(before, line);
        lemma_one_line(l);
        assert(lines(line) == seq![l]);
        let prefix = hdr + lines(before);
        let all = hdr + lines(asc_body(fs, start));
        assert(all =~= prefix.push(l));
        assert(all.drop_last() =~= prefix);
        assert(all.last() == l);
        assert(asc_frames(all) == asc_frames(prefix) + seq![relative_to(f, start)]);
        assert(fs.map_values(|g: FrameView| relative_to(g, start)) =~= dl.map_values(
            |g: FrameView| relative_to(g, start),
        ).push(relative_to(f, start)));
        assert((before + line).last() == line.last());
    }
}

/// An ASC log that `AscWriter` writes (its header, then the line of each
/// frame) reads back as its frames, each time taken relative to the
/// log's start and rounded to microseconds (negative before the start), when every frame is one that reads back and the date holds
/// no line feed.
pub proof fn lemma_asc_log_reads_back(date: Seq<char>, fs: Seq<FrameView>, start: i64)
    requires
        no_nl(date),
        forall|i: int| 0 <= i < fs.len() ==> reads_back(#[trigger] fs[i], start),
    ensures
        asc_frames(lines(asc_header(date) + asc_body(fs, start))) == fs.map_values(
            |f: FrameView| relative_to(f, start),
        ),
{
    lemma_ascii_whitespace_agrees();
    let body = asc_body(fs, start);
    lemma_header_frames(date, body);
    let hdr = seq![
        strip_cr(seq!['d', 'a', 't', 'e', ' '] + date),
        base_line(),
        internal_line(),
        comment_line(),
    ];
    lemma_body_frames(hdr, fs, start);
}
} // verus!
