//! Character-level text helpers: conversions between `str` and characters,
//! whitespace handling, line splitting, and integer parsing and formatting.
//!
//! Text is handled as sequences of `char`; a piece of text inside a larger
//! one is named by a half-open index range `lo..hi`.
use vstd::prelude::*;

verus! {

broadcast use vstd::string::group_string_axioms;

/// The characters of a string slice, in order.
pub fn chars_of(s: &str) -> (v: Vec<char>)
    ensures
        v@ == s@,
{
    let mut v: Vec<char> = Vec::new();
    for c in it: s.chars()
        invariant
            it.seq() == s@,
            v@ == it.seq().take(it.index() as int),
    {
        v.push(c);
    }
    v
}

/// Collects characters into a `String` (`String`'s `FromIterator<&char>`).
/// Claims that the string holds exactly the given characters, in order.
#[verifier::external_body]
pub(crate) fn string_from_chars(chars: &[char]) -> (s: String)
    ensures
        s@ == chars@,
{
    chars.iter().collect()
}

/// Whether a character has the Unicode `White_Space` property
/// (`char::is_whitespace`): tab, line feed, vertical tab, form feed,
/// carriage return, space, next line, no-break space, ogham space mark,
/// the spaces from en quad to hair space, line and paragraph separator,
/// narrow no-break space, medium mathematical space and ideographic space.
#[verifier::opaque]
pub open spec fn is_unicode_whitespace(c: char) -> bool {
    let u = c as u32;
    ||| 0x9 <= u <= 0xD
    ||| u == 0x20
    ||| u == 0x85
    ||| u == 0xA0
    ||| u == 0x1680
    ||| 0x2000 <= u <= 0x200A
    ||| u == 0x2028
    ||| u == 0x2029
    ||| u == 0x202F
    ||| u == 0x205F
    ||| u == 0x3000
}

/// Whether a character is alphabetic or numeric in Unicode, as
/// `char::is_alphanumeric` decides it.
pub uninterp spec fn is_unicode_alphanumeric(c: char) -> bool;

/// The ASCII characters with the `White_Space` property.
pub open spec fn is_ascii_whitespace_char(c: char) -> bool {
    let u = c as u32;
    u == 0x20 || (0x9 <= u && u <= 0xD)
}

/// ASCII letters and digits.
pub open spec fn is_ascii_alnum(c: char) -> bool {
    ('0' <= c && c <= '9') || ('a' <= c && c <= 'z') || ('A' <= c && c <= 'Z')
}

/// `char::is_whitespace`: whether `c` has the `White_Space` property; on
/// ASCII, exactly space, tab, line feed, vertical tab, form feed and
/// carriage return.
pub(crate) fn char_is_whitespace(c: char) -> (b: bool)
    ensures
        b == is_unicode_whitespace(c),
        (c as u32) < 128 ==> (b <==> is_ascii_whitespace_char(c)),
{
    proof {
        reveal(is_unicode_whitespace);
    }
    let u = c as u32;
    (0x9 <= u && u <= 0xD) || u == 0x20 || u == 0x85 || u == 0xA0 || u == 0x1680 || (0x2000 <= u
        && u <= 0x200A) || u == 0x2028 || u == 0x2029 || u == 0x202F || u == 0x205F || u == 0x3000
}

/// `char::is_alphanumeric`. Claims the result is the named Unicode property
/// and, for ASCII characters, that it holds exactly for ASCII letters and digits.
#[verifier::external_body]
pub(crate) fn char_is_alphanumeric(c: char) -> (b: bool)
    ensures
        b == is_unicode_alphanumeric(c),
        (c as u32) < 128 ==> (b <==> is_ascii_alnum(c)),
{
    c.is_alphanumeric()
}

// ------------------------------------------------------------------
// Comparison with literals
// ------------------------------------------------------------------
/// Whether `s[lo..hi]` equals `t`.
pub fn range_eq(s: &[char], lo: usize, hi: usize, t: &[char]) -> (b: bool)
    requires
        lo <= hi <= s@.len(),
    ensures
        b == (s@.subrange(lo as int, hi as int) == t@),
{
    if hi - lo != t.len() {
        return false;
    }
    let mut i: usize = 0;
    while i < t.len()
        invariant
            lo <= hi <= s@.len(),
            hi - lo == t@.len(),
            0 <= i <= t@.len(),
            forall|j: int| 0 <= j < i ==> s@[lo + j] == t@[j],
        decreases t@.len() - i,
    {
        if s[lo + i] != t[i] {
            assert(s@.subrange(lo as int, hi as int)[i as int] != t@[i as int]);
            return false;
        }
        i = i + 1;
    }
    assert(s@.subrange(lo as int, hi as int) =~= t@);
    true
}

/// Whether `s[lo..hi]` begins with `t`.
pub fn range_starts_with(s: &[char], lo: usize, hi: usize, t: &[char]) -> (b: bool)
    requires
        lo <= hi <= s@.len(),
    ensures
        b == (t@.len() <= hi - lo && s@.subrange(lo as int, lo + t@.len()) == t@),
{
    if t.len() > hi - lo {
        return false;
    }
    range_eq(s, lo, lo + t.len(), t)
}

// ------------------------------------------------------------------
// Trimming, tokens and lines
// ------------------------------------------------------------------
/// `s` without its leading whitespace.
pub open spec fn trim_start(s: Seq<char>) -> Seq<char>
    decreases s.len(),
{
    if s.len() > 0 && is_unicode_whitespace(s[0]) {
        trim_start(s.drop_first())
    } else {
        s
    }
}

/// `s` without its trailing whitespace.
pub open spec fn trim_end(s: Seq<char>) -> Seq<char>
    decreases s.len(),
{
    if s.len() > 0 && is_unicode_whitespace(s.last()) {
        trim_end(s.drop_last())
    } else {
        s
    }
}

/// `s` without leading and trailing whitespace (`str::trim`).
pub open spec fn trim(s: Seq<char>) -> Seq<char> {
    trim_end(trim_start(s))
}

/// Bounds of `trim(s[lo..hi])` inside `s`.
pub fn trim_bounds(s: &[char], lo: usize, hi: usize) -> (r: (usize, usize))
    requires
        lo <= hi <= s@.len(),
    ensures
        lo <= r.0 <= r.1 <= hi,
        s@.subrange(r.0 as int, r.1 as int) == trim(s@.subrange(lo as int, hi as int)),
{
    let mut a = lo;
    while a < hi && char_is_whitespace(s[a])
        invariant
            lo <= a <= hi <= s@.len(),
            trim_start(s@.subrange(lo as int, hi as int)) == trim_start(
                s@.subrange(a as int, hi as int),
            ),
        decreases hi - a,
    {
        assert(s@.subrange(a as int, hi as int).drop_first() =~= s@.subrange(a + 1, hi as int));
        a = a + 1;
    }
    assert(trim_start(s@.subrange(a as int, hi as int)) == s@.subrange(a as int, hi as int));
    let mut b = hi;
    while b > a && char_is_whitespace(s[b - 1])
        invariant
            lo <= a <= b <= hi <= s@.len(),
            trim_end(s@.subrange(a as int, hi as int)) == trim_end(s@.subrange(a as int, b as int)),
        decreases b - a,
    {
        assert(s@.subrange(a as int, b as int).drop_last() =~= s@.subrange(a as int, b - 1));
        b = b - 1;
    }
    (a, b)
}

/// Length of the leading run of non-whitespace characters.
pub open spec fn token_len(s: Seq<char>) -> nat
    decreases s.len(),
{
    if s.len() == 0 || is_unicode_whitespace(s[0]) {
        0
    } else {
        1 + token_len(s.drop_first())
    }
}

/// The whitespace-separated tokens of `s` (`str::split_whitespace`).
pub open spec fn split_ws(s: Seq<char>) -> Seq<Seq<char>>
    decreases s.len(),
{
    if s.len() == 0 {
        seq![]
    } else if is_unicode_whitespace(s[0]) {
        split_ws(s.drop_first())
    } else {
        let k = token_len(s);
        if 0 < k <= s.len() {
            seq![s.take(k as int)] + split_ws(s.skip(k as int))
        } else {
            seq![]
        }
    }
}

proof fn lemma_token_len_bound(s: Seq<char>)
    ensures
        token_len(s) <= s.len(),
        s.len() > 0 && !is_unicode_whitespace(s[0]) ==> token_len(s) > 0,
    decreases s.len(),
{
    if s.len() > 0 && !is_unicode_whitespace(s[0]) {
        lemma_token_len_bound(s.drop_first());
    }
}

/// The ranges of the whitespace-separated tokens of `s[lo..hi]`.
#[verifier::spinoff_prover]
pub fn split_ws_ranges(s: &[char], lo: usize, hi: usize) -> (r: Vec<(usize, usize)>)
    requires
        lo <= hi <= s@.len(),
    ensures
        r@.len() == split_ws(s@.subrange(lo as int, hi as int)).len(),
        forall|k: int|
            0 <= k < r@.len() ==> lo <= #[trigger] r@[k].0 <= r@[k].1 <= hi && s@.subrange(
                r@[k].0 as int,
                r@[k].1 as int,
            ) == split_ws(s@.subrange(lo as int, hi as int))[k],
{
    let ghost whole = s@.subrange(lo as int, hi as int);
    let mut r: Vec<(usize, usize)> = Vec::new();
    let mut i = lo;
    assert(r@.map_values(|p: (usize, usize)| s@.subrange(p.0 as int, p.1 as int)) =~= Seq::<
        Seq<char>,
    >::empty());
    while i < hi
        invariant
            lo <= i <= hi <= s@.len(),
            whole == s@.subrange(lo as int, hi as int),
            split_ws(whole) == r@.map_values(
                |p: (usize, usize)| s@.subrange(p.0 as int, p.1 as int),
            ) + split_ws(s@.subrange(i as int, hi as int)),
            forall|k: int| 0 <= k < r@.len() ==> lo <= #[trigger] r@[k].0 <= r@[k].1 <= hi,
        decreases hi - i,
    {
        let ghost rest = s@.subrange(i as int, hi as int);
        if char_is_whitespace(s[i]) {
            assert(rest.drop_first() =~= s@.subrange(i + 1, hi as int));
            i = i + 1;
        } else {
            let start = i;
            while i < hi && !char_is_whitespace(s[i])
                invariant
                    lo <= start <= i <= hi <= s@.len(),
                    rest == s@.subrange(start as int, hi as int),
                    token_len(rest) == (i - start) + token_len(s@.subrange(i as int, hi as int)),
                decreases hi - i,
            {
                assert(s@.subrange(i as int, hi as int).drop_first() =~= s@.subrange(
                    i + 1,
                    hi as int,
                ));
                i = i + 1;
            }
            assert(token_len(s@.subrange(i as int, hi as int)) == 0);
            proof {
                lemma_token_len_bound(rest);
            }
            assert(rest.take((i - start) as int) =~= s@.subrange(start as int, i as int));
            assert(rest.skip((i - start) as int) =~= s@.subrange(i as int, hi as int));
            let ghost old_r = r@;
            r.push((start, i));
            assert(r@.map_values(|p: (usize, usize)| s@.subrange(p.0 as int, p.1 as int))
                =~= old_r.map_values(|p: (usize, usize)| s@.subrange(p.0 as int, p.1 as int))
                + seq![s@.subrange(start as int, i as int)]);
        }
    }
    assert(split_ws(s@.subrange(hi as int, hi as int)) == Seq::<Seq<char>>::empty());
    assert(r@.map_values(|p: (usize, usize)| s@.subrange(p.0 as int, p.1 as int)) =~= split_ws(
        whole,
    ));
    assert forall|k: int| 0 <= k < r@.len() implies lo <= #[trigger] r@[k].0 <= r@[k].1 <= hi
        && s@.subrange(r@[k].0 as int, r@[k].1 as int) == split_ws(whole)[k] by {
        assert(r@.map_values(|p: (usize, usize)| s@.subrange(p.0 as int, p.1 as int))[k]
            == s@.subrange(r@[k].0 as int, r@[k].1 as int));
    }
    r
}

/// Length of the text before the first line feed (or all of it).
pub open spec fn line_len(s: Seq<char>) -> nat
    decreases s.len(),
{
    if s.len() == 0 || s[0] == '\n' {
        0
    } else {
        1 + line_len(s.drop_first())
    }
}

/// A line without the carriage return of its CR LF terminator.
pub open spec fn strip_cr(l: Seq<char>) -> Seq<char> {
    if l.len() > 0 && l.last() == '\r' {
        l.drop_last()
    } else {
        l
    }
}

/// The lines of `s` (`str::lines`): split at line feeds, a carriage return
/// before a line feed dropped, no empty line after a final line feed.
pub open spec fn lines(s: Seq<char>) -> Seq<Seq<char>>
    decreases s.len(),
{
    if s.len() == 0 {
        seq![]
    } else {
        let k = line_len(s);
        if k < s.len() {
            seq![strip_cr(s.take(k as int))] + lines(s.skip(k as int + 1))
        } else {
            seq![s]
        }
    }
}

proof fn lemma_line_len_bound(s: Seq<char>)
    ensures
        line_len(s) <= s.len(),
        line_len(s) < s.len() ==> s[line_len(s) as int] == '\n',
    decreases s.len(),
{
    if s.len() > 0 && s[0] != '\n' {
        lemma_line_len_bound(s.drop_first());
    }
}

/// The ranges of the lines of `s`.
#[verifier::spinoff_prover]
pub fn line_ranges(s: &[char]) -> (r: Vec<(usize, usize)>)
    ensures
        r@.len() == lines(s@).len(),
        forall|k: int|
            0 <= k < r@.len() ==> #[trigger] r@[k].0 <= r@[k].1 <= s@.len() && s@.subrange(
                r@[k].0 as int,
                r@[k].1 as int,
            ) == lines(s@)[k],
{
    let mut r: Vec<(usize, usize)> = Vec::new();
    let mut i: usize = 0;
    assert(s@.subrange(0, s@.len() as int) =~= s@);
    assert(r@.map_values(|p: (usize, usize)| s@.subrange(p.0 as int, p.1 as int)) =~= Seq::<
        Seq<char>,
    >::empty());
    while i < s.len()
        invariant
            0 <= i <= s@.len(),
            lines(s@) == r@.map_values(|p: (usize, usize)| s@.subrange(p.0 as int, p.1 as int))
                + lines(s@.subrange(i as int, s@.len() as int)),
            forall|k: int| 0 <= k < r@.len() ==> #[trigger] r@[k].0 <= r@[k].1 <= s@.len(),
        decreases s@.len() - i,
    {
        let ghost rest = s@.subrange(i as int, s@.len() as int);
        let start = i;
        while i < s.len() && s[i] != '\n'
            invariant
                start <= i <= s@.len(),
                rest == s@.subrange(start as int, s@.len() as int),
                line_len(rest) == (i - start) + line_len(s@.subrange(i as int, s@.len() as int)),
            decreases s@.len() - i,
        {
            assert(s@.subrange(i as int, s@.len() as int).drop_first() =~= s@.subrange(
                i + 1,
                s@.len() as int,
            ));
            i = i + 1;
        }
        proof {
            lemma_line_len_bound(rest);
        }
        let ghost old_r = r@;
        if i < s.len() {
            let mut end = i;
            if end > start && s[end - 1] == '\r' {
                end = end - 1;
            }
            assert(s@.subrange(start as int, end as int) =~= strip_cr(
                rest.take((i - start) as int),
            ));
            assert(rest.skip((i - start) as int + 1) =~= s@.subrange(i + 1, s@.len() as int));
            r.push((start, end));
            assert(forall|k: int| 0 <= k < old_r.len() ==> r@[k] == old_r[k]);
            assert(r@[old_r.len() as int] == (start, end));
            i = i + 1;
            assert(r@.map_values(|p: (usize, usize)| s@.subrange(p.0 as int, p.1 as int))
                =~= old_r.map_values(|p: (usize, usize)| s@.subrange(p.0 as int, p.1 as int))
                + seq![s@.subrange(start as int, end as int)]);
        } else {
            assert(rest =~= s@.subrange(start as int, i as int));
            r.push((start, i));
            assert(forall|k: int| 0 <= k < old_r.len() ==> r@[k] == old_r[k]);
            assert(r@[old_r.len() as int] == (start, i));
            assert(r@.map_values(|p: (usize, usize)| s@.subrange(p.0 as int, p.1 as int))
                =~= old_r.map_values(|p: (usize, usize)| s@.subrange(p.0 as int, p.1 as int))
                + seq![s@.subrange(start as int, i as int)]);
            assert(lines(s@.subrange(i as int, s@.len() as int)) == Seq::<Seq<char>>::empty());
        }
    }
    assert(lines(s@.subrange(i as int, s@.len() as int)) == Seq::<Seq<char>>::empty());
    assert(r@.map_values(|p: (usize, usize)| s@.subrange(p.0 as int, p.1 as int)) =~= lines(s@));
    assert forall|k: int| 0 <= k < r@.len() implies #[trigger] r@[k].0 <= r@[k].1 <= s@.len()
        && s@.subrange(r@[k].0 as int, r@[k].1 as int) == lines(s@)[k] by {
        assert(r@.map_values(|p: (usize, usize)| s@.subrange(p.0 as int, p.1 as int))[k]
            == s@.subrange(r@[k].0 as int, r@[k].1 as int));
    }
    r
}

// ------------------------------------------------------------------
// Unsigned integers in radix 10 and 16
// ------------------------------------------------------------------
/// Value of a hexadecimal digit of either case, or -1.
pub open spec fn hex_digit_value(c: char) -> int {
    if '0' <= c && c <= '9' {
        c as int - '0' as int
    } else if 'a' <= c && c <= 'f' {
        c as int - 'a' as int + 10
    } else if 'A' <= c && c <= 'F' {
        c as int - 'A' as int + 10
    } else {
        -1
    }
}

/// Whether `c` is a digit in `radix` (10 or 16).
pub open spec fn is_radix_digit(c: char, radix: nat) -> bool {
    0 <= hex_digit_value(c) < radix
}

/// Whether every character of `s` is a digit in `radix`.
pub open spec fn all_radix_digits(s: Seq<char>, radix: nat) -> bool {
    forall|i: int| 0 <= i < s.len() ==> is_radix_digit(#[trigger] s[i], radix)
}

/// Value of a digit string, most significant digit first.
pub open spec fn digits_value(s: Seq<char>, radix: nat) -> nat
    decreases s.len(),
{
    if s.len() == 0 {
        0
    } else {
        digits_value(s.drop_last(), radix) * radix + hex_digit_value(s.last()) as nat
    }
}

/// The digits of an unsigned number as `from_str_radix` reads them:
/// one optional leading `+` is skipped.
pub open spec fn unsigned_body(s: Seq<char>) -> Seq<char> {
    if s.len() > 0 && s[0] == '+' {
        s.drop_first()
    } else {
        s
    }
}

/// The unsigned number written in `s` (an optional `+`, then at least one
/// digit of `radix`), as unbounded integer.
pub open spec fn parse_unsigned(s: Seq<char>, radix: nat) -> Option<nat> {
    let b = unsigned_body(s);
    if b.len() > 0 && all_radix_digits(b, radix) {
        Some(digits_value(b, radix))
    } else {
        None
    }
}

/// The number written in `s` if it is at most `max`: what `str::parse`
/// and `from_str_radix` give for an unsigned type whose largest value is `max`.
pub open spec fn parse_bounded(s: Seq<char>, radix: nat, max: nat) -> Option<nat> {
    match parse_unsigned(s, radix) {
        Some(v) => if v <= max {
            Some(v)
        } else {
            None
        },
        None => None,
    }
}

proof fn lemma_digits_value_prefix_monotone(s: Seq<char>, radix: nat, i: int, j: int)
    requires
        0 <= i <= j <= s.len(),
        radix >= 1,
        all_radix_digits(s, radix),
    ensures
        digits_value(s.take(i), radix) <= digits_value(s.take(j), radix),
    decreases j - i,
{
    if i < j {
        lemma_digits_value_prefix_monotone(s, radix, i, j - 1);
        let p = s.take(j);
        assert(p.drop_last() =~= s.take(j - 1));
        let v = digits_value(s.take(j - 1), radix);
        assert(v * radix >= v) by (nonlinear_arith)
            requires
                radix >= 1,
        ;
        assert(is_radix_digit(s[j - 1], radix));
    }
}

/// Reads the unsigned number written in `s[lo..hi]` in `radix` (10 or 16),
/// if it is at most `max`.
#[verifier::spinoff_prover]
pub fn parse_uint(s: &[char], lo: usize, hi: usize, radix: u64, max: u64) -> (r: Option<u64>)
    requires
        lo <= hi <= s@.len(),
        radix == 10 || radix == 16,
    ensures
        r == (match parse_bounded(s@.subrange(lo as int, hi as int), radix as nat, max as nat) {
            Some(v) => Some(v as u64),
            None => None,
        }),
{
    let ghost whole = s@.subrange(lo as int, hi as int);
    let mut start = lo;
    if start < hi && s[start] == '+' {
        start = start + 1;
    }
    let ghost body = s@.subrange(start as int, hi as int);
    assert(body =~= unsigned_body(whole));
    if start == hi {
        return None;
    }
    let mut acc: u64 = 0;
    let mut i = start;
    while i < hi
        invariant
            lo <= start <= i <= hi <= s@.len(),
            radix == 10 || radix == 16,
            body == s@.subrange(start as int, hi as int),
            body == unsigned_body(whole),
            whole == s@.subrange(lo as int, hi as int),
            all_radix_digits(body.take(i - start), radix as nat),
            acc == digits_value(body.take(i - start), radix as nat),
            acc <= max,
        decreases hi - i,
    {
        let c = s[i];
        let d: u64 = if '0' <= c && c <= '9' {
            (c as u32 - '0' as u32) as u64
        } else if 'a' <= c && c <= 'f' {
            (c as u32 - 'a' as u32 + 10) as u64
        } else if 'A' <= c && c <= 'F' {
            (c as u32 - 'A' as u32 + 10) as u64
        } else {
            radix
        };
        assert(body[i - start] == c);
        if d >= radix {
            assert(!is_radix_digit(body[i - start], radix as nat));
            return None;
        }
        assert(d as int == hex_digit_value(c));
        assert((acc as u128) * (radix as u128) <= 0xFFFF_FFFF_FFFF_FFFFu128 * 16) by (nonlinear_arith)
            requires
                acc <= 0xFFFF_FFFF_FFFF_FFFFu64,
                radix <= 16,
        ;
        let wide: u128 = (acc as u128) * (radix as u128) + (d as u128);
        assert(body.take(i - start + 1).drop_last() =~= body.take(i - start));
        assert(all_radix_digits(body.take(i - start + 1), radix as nat));
        assert(wide == digits_value(body.take(i - start + 1), radix as nat));
        if wide > max as u128 {
            proof {
                if all_radix_digits(body, radix as nat) {
                    lemma_digits_value_prefix_monotone(
                        body,
                        radix as nat,
                        i - start + 1,
                        body.len() as int,
                    );
                    assert(body.take(body.len() as int) =~= body);
                }
            }
            return None;
        }
        acc = wide as u64;
        i = i + 1;
    }
    assert(body.take(i - start) =~= body);
    Some(acc)
}

/// The character of digit `d` (below 16), in lower or upper case.
pub open spec fn digit_char(d: nat, upper: bool) -> char {
    if d < 10 {
        ('0' as nat + d) as char
    } else if upper {
        ('A' as nat + d - 10) as char
    } else {
        ('a' as nat + d - 10) as char
    }
}

/// The digits of `n` in `radix` (2 to 16), without leading zeros
/// (a single `0` for zero).
pub open spec fn radix_digits(n: nat, radix: nat, upper: bool) -> Seq<char>
    decreases n,
{
    if radix < 2 || n < radix {
        seq![digit_char(n, upper)]
    } else {
        proof {
            assert(n / radix < n) by (nonlinear_arith)
                requires
                    radix >= 2,
                    n >= radix,
            ;
        }
        radix_digits(n / radix, radix, upper) + seq![digit_char(n % radix, upper)]
    }
}

/// `s` padded on the left with zeros to at least `width` characters.
pub open spec fn zero_pad(s: Seq<char>, width: nat) -> Seq<char> {
    if s.len() >= width {
        s
    } else {
        Seq::new((width - s.len()) as nat, |_i: int| '0') + s
    }
}

fn digit_to_char(d: u64, upper: bool) -> (c: char)
    requires
        d < 16,
    ensures
        c == digit_char(d as nat, upper),
{
    if d < 10 {
        ((48 + d) as u8) as char
    } else if upper {
        ((55 + d) as u8) as char
    } else {
        ((87 + d) as u8) as char
    }
}

/// Number of digits of `n` in `radix`.
pub fn digit_count(n: u64, radix: u64) -> (k: usize)
    requires
        radix == 10 || radix == 16,
    ensures
        k == radix_digits(n as nat, radix as nat, false).len(),
        k <= 20,
    decreases n,
{
    if n < radix {
        1
    } else {
        assert(n / radix < n) by (nonlinear_arith)
            requires
                radix >= 2,
                n >= radix,
        ;
        proof {
            lemma_digit_count_bound(n as nat, radix as nat);
        }
        digit_count(n / radix, radix) + 1
    }
}

spec fn rpow(r: nat, k: nat) -> nat
    decreases k,
{
    if k == 0 {
        1
    } else {
        r * rpow(r, (k - 1) as nat)
    }
}

proof fn lemma_digits_len_case(n: nat, radix: nat, u: bool)
    requires
        radix == 10 || radix == 16,
    ensures
        radix_digits(n, radix, u).len() == radix_digits(n, radix, false).len(),
    decreases n,
{
    if n >= radix {
        assert(n / radix < n) by (nonlinear_arith)
            requires
                radix >= 2,
                n >= radix,
        ;
        lemma_digits_len_case(n / radix, radix, u);
    }
}

proof fn lemma_digits_len_pow(n: nat, radix: nat, k: nat)
    requires
        radix == 10 || radix == 16,
        k >= 1,
        n < rpow(radix, k),
    ensures
        radix_digits(n, radix, false).len() <= k,
    decreases k,
{
    if n >= radix {
        let p = rpow(radix, (k - 1) as nat);
        assert(n / radix < p) by (nonlinear_arith)
            requires
                radix >= 2,
                n < radix * p,
        ;
        if k == 1 {
            assert(rpow(radix, 0) == 1);
            assert(false);
        }
        lemma_digits_len_pow(n / radix, radix, (k - 1) as nat);
    }
}

proof fn lemma_digit_count_bound(n: nat, radix: nat)
    requires
        radix == 10 || radix == 16,
        n <= u64::MAX,
    ensures
        radix_digits(n, radix, false).len() <= 20,
        forall|u: bool| #[trigger]
            radix_digits(n, radix, u).len() == radix_digits(n, radix, false).len(),
{
    reveal_with_fuel(rpow, 21);
    assert(rpow(10, 20) == 100000000000000000000nat);
    assert(rpow(16, 20) > 0xffff_ffff_ffff_ffffnat);
    lemma_digits_len_pow(n, radix, 20);
    assert forall|u: bool| #[trigger]
        radix_digits(n, radix, u).len() == radix_digits(n, radix, false).len() by {
        lemma_digits_len_case(n, radix, u);
    }
}

/// Appends the digits of `n` in `radix` (10 or 16).
pub fn push_digits(out: &mut Vec<char>, n: u64, radix: u64, upper: bool)
    requires
        radix == 10 || radix == 16,
    ensures
        final(out)@ == old(out)@ + radix_digits(n as nat, radix as nat, upper),
    decreases n,
{
    if n >= radix {
        assert(n / radix < n) by (nonlinear_arith)
            requires
                radix >= 2,
                n >= radix,
        ;
        push_digits(out, n / radix, radix, upper);
    }
    let d = n % radix;
    out.push(digit_to_char(d, upper));
}

/// Appends `n` in `radix` (10 or 16), zero-padded to at least `width` digits:
/// what `format!` writes for `{:0width$}`, `{:0width$x}` and `{:0width$X}`.
pub fn push_padded(out: &mut Vec<char>, n: u64, radix: u64, width: usize, upper: bool)
    requires
        radix == 10 || radix == 16,
    ensures
        final(out)@ == old(out)@ + zero_pad(radix_digits(n as nat, radix as nat, upper), width as nat),
{
    let k = digit_count(n, radix);
    proof {
        lemma_digit_count_bound(n as nat, radix as nat);
    }
    let ghost start = out@;
    let mut z: usize = k;
    while z < width
        invariant
            k <= z <= width || (z == k && k >= width),
            out@ == start + Seq::new((z - k) as nat, |_i: int| '0'),
        decreases width - z,
    {
        out.push('0');
        z = z + 1;
        assert(out@ =~= start + Seq::new((z - k) as nat, |_i: int| '0'));
    }
    let ghost mid = out@;
    push_digits(out, n, radix, upper);
    let ghost digits = radix_digits(n as nat, radix as nat, upper);
    if k >= width {
        assert(out@ =~= start + zero_pad(digits, width as nat));
    } else {
        assert(out@ =~= start + zero_pad(digits, width as nat));
    }
}


/// Whether two string slices hold the same characters (compared through
/// their UTF-8 bytes).
pub fn str_eq(a: &str, b: &str) -> (r: bool)
    ensures
        r == (a@ == b@),
{
    let x = a.as_bytes();
    let y = b.as_bytes();
    assert(x@ == vstd::utf8::encode_utf8(a@));
    assert(y@ == vstd::utf8::encode_utf8(b@));
    proof {
        vstd::utf8::encode_utf8_decode_utf8(a@);
        vstd::utf8::encode_utf8_decode_utf8(b@);
    }
    if x.len() != y.len() {
        return false;
    }
    let mut i: usize = 0;
    while i < x.len()
        invariant
            x@.len() == y@.len(),
            x@ == vstd::utf8::encode_utf8(a@),
            y@ == vstd::utf8::encode_utf8(b@),
            0 <= i <= x@.len(),
            forall|j: int| 0 <= j < i ==> x@[j] == y@[j],
        decreases x@.len() - i,
    {
        if x[i] != y[i] {
            assert(x@[i as int] != y@[i as int]);
            assert(x@ != y@);
            return false;
        }
        i = i + 1;
    }
    assert(x@ =~= y@);
    true
}


/// The text `s[lo..hi]` as a `String`.
pub fn text_of(s: &[char], lo: usize, hi: usize) -> (r: String)
    requires
        lo <= hi <= s@.len(),
    ensures
        r@ == s@.subrange(lo as int, hi as int),
{
    string_from_chars(vstd::slice::slice_subrange(s, lo, hi))
}

} // verus!
