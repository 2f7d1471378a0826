//! Vector ASC (ASCII) log format: the line written for a frame, and the
//! frames read back from a log's text.
use vstd::prelude::*;

use crate::can::frame::{
    classic_frame, fd_frame, hex_bytes, push_hex_bytes, CanFrame, Direction, FrameView,
};
use crate::dbc::parser::{begins_with, skip_class, skip_run, CharClass};
use crate::text::{
    digits_value, parse_bounded, parse_uint, push_digits, push_padded, radix_digits, split_ws,
    string_from_chars, trim, zero_pad,
};

verus! {

// ------------------------------------------------------------------
// Writing
// ------------------------------------------------------------------
/// `n` in decimal.
pub open spec fn dec(n: nat) -> Seq<char> {
    radix_digits(n, 10, false)
}

/// `n` spaces.
pub open spec fn spaces(n: nat) -> Seq<char> {
    Seq::new(n, |_i: int| ' ')
}

/// A duration in nanoseconds, rounded to microseconds (halves up).
pub open spec fn micros_of(d: nat) -> nat {
    d / 1000 + if d % 1000 >= 500 {
        1nat
    } else {
        0nat
    }
}

/// Seconds with six decimals of a duration in nanoseconds, with a minus
/// sign where it is negative.
pub open spec fn seconds_text(neg: bool, d: nat) -> Seq<char> {
    let us = micros_of(d);
    (if neg {
        seq!['-']
    } else {
        seq![]
    }) + dec(us / 1_000_000) + seq!['.'] + zero_pad(dec(us % 1_000_000), 6)
}

/// The time of a frame relative to the log's start, in seconds.
pub open spec fn relative_time_text(ts: i64, start: i64) -> Seq<char> {
    if ts >= start {
        seconds_text(false, (ts - start) as nat)
    } else {
        seconds_text(true, (start - ts) as nat)
    }
}

/// `Rx` or `Tx`.
pub open spec fn direction_text(d: Direction) -> Seq<char> {
    match d {
        Direction::Rx => seq!['R', 'x'],
        Direction::Tx => seq!['T', 'x'],
    }
}

/// `1` or `0`.
pub open spec fn flag_text(b: bool) -> Seq<char> {
    if b {
        seq!['1']
    } else {
        seq!['0']
    }
}

/// The five zero columns that close a CAN FD line, and the line feed.
pub open spec fn fd_trailer() -> Seq<char> {
    seq![
        ' ',
        ' ',
        ' ',
        ' ',
        '0',
        ' ',
        ' ',
        ' ',
        ' ',
        '0',
        ' ',
        ' ',
        ' ',
        ' ',
        '0',
        ' ',
        ' ',
        ' ',
        ' ',
        '0',
        ' ',
        ' ',
        ' ',
        ' ',
        '0',
        '\n',
    ]
}

/// Direction, `d` and the data length code.
pub open spec fn dir_dlc_text(f: FrameView) -> Seq<char> {
    direction_text(f.direction) + seq![' ', 'd', ' '] + dec(f.dlc as nat)
}

/// The CAN FD marker, identifier, direction and data length code.
pub open spec fn fd_head(f: FrameView) -> Seq<char> {
    seq![' ', 'C', 'A', 'N', 'F', 'D'] + spaces(3) + zero_pad(radix_digits(f.id as nat, 16, false), 3)
        + spaces(13) + dir_dlc_text(f)
}

/// The payload length and the bit rate switch and error state flags.
pub open spec fn fd_middle(f: FrameView) -> Seq<char> {
    seq![' '] + dec(f.data.len()) + seq![' '] + flag_text(f.is_brs) + seq![' '] + flag_text(
        f.is_esi,
    ) + seq![' ']
}

/// The rest of a CAN FD line after the time.
pub open spec fn fd_rest(f: FrameView) -> Seq<char> {
    fd_head(f) + fd_middle(f) + hex_bytes(f.data, false) + fd_trailer()
}

/// The identifier column of a classic line.
pub open spec fn classic_id_text(f: FrameView) -> Seq<char> {
    if f.is_extended {
        zero_pad(radix_digits(f.id as nat, 16, true), 8) + seq!['x'] + spaces(7)
    } else {
        zero_pad(radix_digits(f.id as nat, 16, true), 3) + spaces(13)
    }
}

/// The rest of a classic CAN line after the time.
pub open spec fn classic_rest(f: FrameView) -> Seq<char> {
    seq![' '] + dec(f.channel as nat + 1) + spaces(2) + classic_id_text(f) + dir_dlc_text(f) + seq![
        ' ',
    ] + hex_bytes(f.data, false) + seq!['\n']
}

/// The ASC line of a frame, line feed included: the time relative to the
/// log's start, then the CAN FD or classic columns.
pub open spec fn asc_line(f: FrameView, start: i64) -> Seq<char> {
    spaces(2) + relative_time_text(f.timestamp_ns, start) + if f.is_fd {
        fd_rest(f)
    } else {
        classic_rest(f)
    }
}

/// The header lines of an ASC log written at `date`.
pub open spec fn asc_header(date: Seq<char>) -> Seq<char> {
    seq!['d', 'a', 't', 'e', ' '] + date + seq![
        '\n',
        'b',
        'a',
        's',
        'e',
        ' ',
        'h',
        'e',
        'x',
        ' ',
        ' ',
        't',
        'i',
        'm',
        'e',
        's',
        't',
        'a',
        'm',
        'p',
        's',
        ' ',
        'a',
        'b',
        's',
        'o',
        'l',
        'u',
        't',
        'e',
        '\n',
        'i',
        'n',
        't',
        'e',
        'r',
        'n',
        'a',
        'l',
        ' ',
        'e',
        'v',
        'e',
        'n',
        't',
        's',
        ' ',
        'l',
        'o',
        'g',
        'g',
        'e',
        'd',
        '\n',
        '/',
        '/',
        ' ',
        'C',
        'A',
        'N',
        'k',
        'o',
        'r',
        'o',
        ' ',
        'A',
        'S',
        'C',
        ' ',
        'L',
        'o',
        'g',
        '\n',
    ]
}

/// Appends characters.
pub fn push_chars(out: &mut Vec<char>, t: &[char])
    ensures
        final(out)@ == old(out)@ + t@,
{
    let mut i: usize = 0;
    let ghost start = out@;
    while i < t.len()
        invariant
            0 <= i <= t@.len(),
            out@ == start + t@.take(i as int),
        decreases t@.len() - i,
    {
        out.push(t[i]);
        assert(t@.take(i + 1) =~= t@.take(i as int).push(t@[i as int]));
        i = i + 1;
    }
    assert(t@.take(i as int) =~= t@);
}

fn push_spaces(out: &mut Vec<char>, n: usize)
    ensures
        final(out)@ == old(out)@ + spaces(n as nat),
{
    let mut i: usize = 0;
    let ghost start = out@;
    while i < n
        invariant
            0 <= i <= n,
            out@ == start + spaces(i as nat),
        decreases n - i,
    {
        out.push(' ');
        assert(spaces((i + 1) as nat) =~= spaces(i as nat).push(' '));
        i = i + 1;
    }
}

fn push_seconds(out: &mut Vec<char>, neg: bool, d: u64)
    ensures
        final(out)@ == old(out)@ + seconds_text(neg, d as nat),
{
    let ghost start = out@;
    let us: u64 = d / 1000 + if d % 1000 >= 500 {
        1
    } else {
        0
    };
    if neg {
        out.push('-');
    }
    push_digits(out, us / 1_000_000, 10, false);
    out.push('.');
    push_padded(out, us % 1_000_000, 10, 6, false);
    assert(out@ =~= start + seconds_text(neg, d as nat));
}

/// ASC log writer state: the time that frame times are written relative to.
pub struct AscWriter {
    pub start_time_ns: i64,
}

impl AscWriter {
    /// A writer whose frame times are absolute.
    pub fn new() -> (w: Self)
        ensures
            w.start_time_ns == 0,
    {
        AscWriter { start_time_ns: 0 }
    }

    /// The header lines that open a log written at `date`.
    pub fn header(date: &str) -> (h: String)
        ensures
            h@ == asc_header(date@),
    {
        let mut out: Vec<char> = Vec::new();
        push_chars(&mut out, ['d', 'a', 't', 'e', ' '].as_slice());
        let d = crate::text::chars_of(date);
        push_chars(&mut out, d.as_slice());
        push_chars(
            &mut out,
            [
                '\n',
                'b',
                'a',
                's',
                'e',
                ' ',
                'h',
                'e',
                'x',
                ' ',
                ' ',
                't',
                'i',
                'm',
                'e',
                's',
                't',
                'a',
                'm',
                'p',
                's',
                ' ',
                'a',
                'b',
                's',
                'o',
                'l',
                'u',
                't',
                'e',
                '\n',
                'i',
                'n',
                't',
                'e',
                'r',
                'n',
                'a',
                'l',
                ' ',
                'e',
                'v',
                'e',
                'n',
                't',
                's',
                ' ',
                'l',
                'o',
                'g',
                'g',
                'e',
                'd',
                '\n',
                '/',
                '/',
                ' ',
                'C',
                'A',
                'N',
                'k',
                'o',
                'r',
                'o',
                ' ',
                'A',
                'S',
                'C',
                ' ',
                'L',
                'o',
                'g',
                '\n',
            ].as_slice(),
        );
        assert(out@ =~= asc_header(date@));
        string_from_chars(out.as_slice())
    }

    /// Sets the time that frame times are written relative to.
    pub fn set_start_time(&mut self, t_ns: i64)
        ensures
            final(self).start_time_ns == t_ns,
    {
        self.start_time_ns = t_ns;
    }

    /// The ASC line of a frame (line feed included).
    pub fn write_frame(&self, frame: &CanFrame) -> (line: String)
        ensures
            line@ == asc_line(frame@, self.start_time_ns),
    {
        let mut out: Vec<char> = Vec::new();
        push_spaces(&mut out, 2);
        let diff: i128 = frame.timestamp_ns as i128 - self.start_time_ns as i128;
        if diff >= 0 {
            push_seconds(&mut out, false, diff as u64);
        } else {
            push_seconds(&mut out, true, (0 - diff) as u64);
        }
        let ghost head = out@;
        if frame.is_fd {
            push_fd_rest(&mut out, frame);
        } else {
            push_classic_rest(&mut out, frame);
        }
        assert(out@ =~= asc_line(frame@, self.start_time_ns));
        string_from_chars(out.as_slice())
    }
}

fn push_dir_dlc(out: &mut Vec<char>, frame: &CanFrame)
    ensures
        final(out)@ == old(out)@ + dir_dlc_text(frame@),
{
    let ghost start = out@;
    match frame.direction {
        Direction::Rx => {
            out.push('R');
        },
        Direction::Tx => {
            out.push('T');
        },
    }
    out.push('x');
    out.push(' ');
    out.push('d');
    out.push(' ');
    push_digits(out, frame.dlc as u64, 10, false);
    assert(out@ =~= start + dir_dlc_text(frame@));
}

fn push_fd_head(out: &mut Vec<char>, frame: &CanFrame)
    ensures
        final(out)@ == old(out)@ + fd_head(frame@),
{
    let ghost start = out@;
    push_chars(out, [' ', 'C', 'A', 'N', 'F', 'D'].as_slice());
    push_spaces(out, 3);
    push_padded(out, frame.id as u64, 16, 3, false);
    push_spaces(out, 13);
    push_dir_dlc(out, frame);
    assert(out@ =~= start + fd_head(frame@));
}

fn push_fd_middle(out: &mut Vec<char>, frame: &CanFrame)
    ensures
        final(out)@ == old(out)@ + fd_middle(frame@),
{
    let ghost start = out@;
    out.push(' ');
    push_digits(out, frame.data.len() as u64, 10, false);
    out.push(' ');
    out.push(
        if frame.is_brs {
            '1'
        } else {
            '0'
        },
    );
    out.push(' ');
    out.push(
        if frame.is_esi {
            '1'
        } else {
            '0'
        },
    );
    out.push(' ');
    assert(out@ =~= start + fd_middle(frame@));
}

fn push_fd_rest(out: &mut Vec<char>, frame: &CanFrame)
    ensures
        final(out)@ == old(out)@ + fd_rest(frame@),
{
    let ghost start = out@;
    push_fd_head(out, frame);
    push_fd_middle(out, frame);
    push_hex_bytes(out, frame.data.as_slice(), false);
    let ghost mid = out@;
    push_chars(
        out,
        [
            ' ',
            ' ',
            ' ',
            ' ',
            '0',
            ' ',
            ' ',
            ' ',
            ' ',
            '0',
            ' ',
            ' ',
            ' ',
            ' ',
            '0',
            ' ',
            ' ',
            ' ',
            ' ',
            '0',
            ' ',
            ' ',
            ' ',
            ' ',
            '0',
            '\n',
        ].as_slice(),
    );
    assert(out@ =~= mid + fd_trailer());
    assert(out@ =~= start + fd_rest(frame@));
}

fn push_classic_rest(out: &mut Vec<char>, frame: &CanFrame)
    ensures
        final(out)@ == old(out)@ + classic_rest(frame@),
{
    let ghost start = out@;
    out.push(' ');
    push_digits(out, frame.channel as u64 + 1, 10, false);
    push_spaces(out, 2);
    let ghost mid = out@;
    if frame.is_extended {
        push_padded(out, frame.id as u64, 16, 8, true);
        out.push('x');
        push_spaces(out, 7);
    } else {
        push_padded(out, frame.id as u64, 16, 3, true);
        push_spaces(out, 13);
    }
    assert(out@ =~= mid + classic_id_text(frame@));
    push_dir_dlc(out, frame);
    out.push(' ');
    push_hex_bytes(out, frame.data.as_slice(), false);
    out.push('\n');
    assert(out@ =~= start + classic_rest(frame@));
}


// ------------------------------------------------------------------
// Reading
// ------------------------------------------------------------------
/// 10 to the power `n`.
pub open spec fn pow10(n: nat) -> nat
    decreases n,
{
    if n == 0 {
        1
    } else {
        10 * pow10((n - 1) as nat)
    }
}

/// Whether a time token is negative: it starts with `-`.
pub open spec fn time_negative(t: Seq<char>) -> bool {
    t.len() > 0 && t[0] == '-'
}

/// A time token without its sign (one leading `+` or `-`).
pub open spec fn time_body(t: Seq<char>) -> Seq<char> {
    if t.len() > 0 && (t[0] == '+' || t[0] == '-') {
        t.drop_first()
    } else {
        t
    }
}

/// The size of a time in seconds written as a plain decimal (an optional
/// sign, digits, an optional fraction; at least one digit), in
/// nanoseconds: fraction digits beyond the ninth are dropped. `None` for
/// any other text.
pub open spec fn time_magnitude(t: Seq<char>) -> Option<nat> {
    let b = time_body(t);
    let k = skip_class(b, 0, CharClass::Digit);
    let r = b.subrange(k, b.len() as int);
    let frac: Option<Seq<char>> = if r.len() == 0 {
        Some(seq![])
    } else if r[0] == '.' && crate::text::all_radix_digits(r.drop_first(), 10) {
        Some(r.drop_first())
    } else {
        None
    };
    match frac {
        None => None,
        Some(f) => if k + f.len() == 0 {
            None
        } else {
            Some(digits_value(b.subrange(0, k), 10) * 1_000_000_000 + fraction_value(f))
        },
    }
}

/// A time token in signed nanoseconds, negative after a `-`; `None` when
/// it is no plain decimal or the time does not fit in an `i64`.
pub open spec fn time_ns(t: Seq<char>) -> Option<i64> {
    match time_magnitude(t) {
        None => None,
        Some(v) => if time_negative(t) {
            if v <= 0x8000_0000_0000_0000 {
                Some((0 - v) as i64)
            } else {
                None
            }
        } else if v <= i64::MAX {
            Some(v as i64)
        } else {
            None
        },
    }
}

/// The tokens that read as hexadecimal bytes, read, in order; others are skipped.
pub open spec fn hex_tokens(ts: Seq<Seq<char>>) -> Seq<u8>
    decreases ts.len(),
{
    if ts.len() == 0 {
        seq![]
    } else {
        hex_tokens(ts.drop_last()) + match parse_bounded(ts.last(), 16, 255) {
            Some(v) => seq![v as u8],
            None => seq![],
        }
    }
}

/// A token without its trailing `x` characters.
pub open spec fn trim_x(t: Seq<char>) -> Seq<char>
    decreases t.len(),
{
    if t.len() > 0 && t.last() == 'x' {
        trim_x(t.drop_last())
    } else {
        t
    }
}

/// `Tx` reads as transmitted, anything else as received.
pub open spec fn direction_of(t: Seq<char>) -> Direction {
    if t == seq!['T', 'x'] {
        Direction::Tx
    } else {
        Direction::Rx
    }
}

/// A classic CAN line: `time channel id[x] dir d dlc bytes...`; the
/// channel is 1-based in the log, the data bytes are the readable ones
/// among the next `dlc` tokens.
pub open spec fn classic_line_frame(parts: Seq<Seq<char>>, ts: i64) -> Option<FrameView> {
    match parse_bounded(parts[1], 10, 255) {
        None => None,
        Some(ch) => match parse_bounded(trim_x(parts[2]), 16, u32::MAX as nat) {
            None => None,
            Some(id) => if parts[4] != seq!['d'] {
                None
            } else {
                match parse_bounded(parts[5], 10, 255) {
                    None => None,
                    Some(dlc) => {
                        let end = if parts.len() < 6 + dlc {
                            parts.len() as int
                        } else {
                            6 + dlc as int
                        };
                        Some(
                            classic_frame(
                                ts,
                                if ch == 0 {
                                    0u8
                                } else {
                                    (ch - 1) as u8
                                },
                                id as u32,
                                parts[2].len() > 0 && parts[2].last() == 'x',
                                dlc as u8,
                                hex_tokens(parts.subrange(6, end)),
                                direction_of(parts[3]),
                            ),
                        )
                    },
                }
            },
        },
    }
}

/// A CAN FD line: `time CANFD id dir d dlc len brs esi bytes...`; the
/// channel is 0, the identifier is extended when above 0x7FF, and the data
/// are the readable byte tokens among the `len` after the error state
/// column (as many as there are).
pub open spec fn fd_line_frame(parts: Seq<Seq<char>>, ts: i64) -> Option<FrameView> {
    if parts.len() < 8 {
        None
    } else {
        match parse_bounded(parts[2], 16, u32::MAX as nat) {
            None => None,
            Some(id) => match parse_bounded(parts[5], 10, 255) {
                None => None,
                Some(dlc) => match parse_bounded(parts[6], 10, usize::MAX as nat) {
                    None => None,
                    Some(len) => {
                        let end = if parts.len() < 9 + len {
                            parts.len() as int
                        } else {
                            9 + len as int
                        };
                        Some(
                            fd_frame(
                                ts,
                                0,
                                id as u32,
                                id > 0x7FF,
                                parts[7] == seq!['1'],
                                dlc as u8,
                                if end > 9 {
                                    hex_tokens(parts.subrange(9, end))
                                } else {
                                    seq![]
                                },
                                direction_of(parts[3]),
                            ),
                        )
                    },
                },
            },
        }
    }
}

/// The frame of a trimmed ASC line, if it holds one.
pub open spec fn asc_line_frame(t: Seq<char>) -> Option<FrameView> {
    let parts = split_ws(t);
    if parts.len() < 6 {
        None
    } else {
        match time_ns(parts[0]) {
            None => None,
            Some(ts) => if parts[1] == seq!['C', 'A', 'N', 'F', 'D'] {
                fd_line_frame(parts, ts)
            } else {
                classic_line_frame(parts, ts)
            },
        }
    }
}

/// Header and comment lines: empty, or beginning with `date`, `base`,
/// `internal`, `//`, `Begin` or `End`.
pub open spec fn skipped_line(t: Seq<char>) -> bool {
    ||| t.len() == 0
    ||| begins_with(t, seq!['d', 'a', 't', 'e'])
    ||| begins_with(t, seq!['b', 'a', 's', 'e'])
    ||| begins_with(t, seq!['i', 'n', 't', 'e', 'r', 'n', 'a', 'l'])
    ||| begins_with(t, seq!['/', '/'])
    ||| begins_with(t, seq!['B', 'e', 'g', 'i', 'n'])
    ||| begins_with(t, seq!['E', 'n', 'd'])
}

/// The frames of the lines of an ASC log, in order.
pub open spec fn asc_frames(ls: Seq<Seq<char>>) -> Seq<FrameView>
    decreases ls.len(),
{
    if ls.len() == 0 {
        seq![]
    } else {
        let t = trim(ls.last());
        asc_frames(ls.drop_last()) + if skipped_line(t) {
            seq![]
        } else {
            match asc_line_frame(t) {
                Some(f) => seq![f],
                None => seq![],
            }
        }
    }
}


proof fn lemma_pow10_pos(n: nat)
    ensures
        1 <= pow10(n),
    decreases n,
{
    if n > 0 {
        lemma_pow10_pos((n - 1) as nat);
    }
}

proof fn lemma_pow10_mono(n: nat, m: nat)
    requires
        n <= m,
    ensures
        1 <= pow10(n) <= pow10(m),
    decreases m,
{
    lemma_pow10_pos(n);
    if n < m {
        lemma_pow10_mono(n, (m - 1) as nat);
    }
}

proof fn lemma_pow10_bound(n: nat)
    requires
        n <= 9,
    ensures
        1 <= pow10(n) <= 1_000_000_000,
{
    reveal_with_fuel(pow10, 10);
    assert(pow10(9) == 1_000_000_000);
    lemma_pow10_mono(n, 9);
}

proof fn lemma_digits_value_bound(s: Seq<char>)
    requires
        crate::text::all_radix_digits(s, 10),
    ensures
        digits_value(s, 10) < pow10(s.len()),
    decreases s.len(),
{
    if s.len() > 0 {
        let p = s.drop_last();
        assert(crate::text::all_radix_digits(p, 10)) by {
            assert forall|i: int| 0 <= i < p.len() implies crate::text::is_radix_digit(
                #[trigger] p[i],
                10,
            ) by {
                assert(p[i] == s[i]);
            }
        }
        lemma_digits_value_bound(p);
        assert(crate::text::is_radix_digit(s[s.len() - 1], 10));
    }
}

/// Reads a time in seconds from a token as nanoseconds.
#[verifier::spinoff_prover]
#[verifier::rlimit(30)]
pub fn parse_time_ns(t: &[char]) -> (r: Option<i64>)
    ensures
        r == time_ns(t@),
{
    let hi = t.len();
    let neg = 0 < hi && t[0] == '-';
    let a: usize = if 0 < hi && (t[0] == '+' || t[0] == '-') {
        1
    } else {
        0
    };
    let ghost b = time_body(t@);
    assert(b =~= t@.subrange(a as int, hi as int));
    let k = skip_run(t, a, CharClass::Digit);
    proof {
        crate::dbc::parser::lemma_skip_class_bounds(t@, a as int, CharClass::Digit);
        lemma_skip_shift(t@, a as int, hi as int, a as int);
    }
    let ghost kk = skip_class(b, 0, CharClass::Digit);
    assert(kk == k - a);
    let ghost r = b.subrange(kk, b.len() as int);
    assert(r =~= t@.subrange(k as int, hi as int));
    let fa: usize;
    if k == hi {
        fa = hi;
    } else if t[k] == '.' {
        fa = k + 1;
        let e = skip_run(t, fa, CharClass::Digit);
        proof {
            crate::dbc::parser::lemma_skip_class_bounds(t@, fa as int, CharClass::Digit);
        }
        if e != hi {
            assert(!crate::text::all_radix_digits(r.drop_first(), 10)) by {
                assert(r.drop_first()[e - fa] == t@[e as int]);
            }
            return None;
        }
        assert(crate::text::all_radix_digits(r.drop_first(), 10)) by {
            assert forall|i: int| 0 <= i < r.drop_first().len() implies crate::text::is_radix_digit(
                #[trigger] r.drop_first()[i],
                10,
            ) by {
                assert(r.drop_first()[i] == t@[fa + i]);
            }
        }
    } else {
        return None;
    }
    let ghost f = t@.subrange(fa as int, hi as int);
    assert(r.len() > 0 ==> f =~= r.drop_first());
    assert(r.len() == 0 ==> f =~= Seq::<char>::empty());
    assert(crate::text::all_radix_digits(f, 10));
    if k == a && fa == hi {
        return None;
    }
    let ghost ipart = t@.subrange(a as int, k as int);
    assert(b.subrange(0, kk) =~= ipart);
    assert(crate::text::all_radix_digits(ipart, 10)) by {
        assert forall|i: int| 0 <= i < k - a implies crate::text::is_radix_digit(
            #[trigger] ipart[i],
            10,
        ) by {
            assert(ipart[i] == t@[a + i]);
        }
    }
    assert(k > a ==> crate::text::unsigned_body(ipart) =~= ipart);
    // integer part
    let ip: u64 = if k == a {
        0
    } else {
        match parse_uint(t, a, k, 10, 18446744073) {
            Some(v) => v,
            None => {
                return None;
            },
        }
    };
    let frac = fraction_ns(vstd::slice::slice_subrange(t, fa, hi));
    let total: u128 = (ip as u128) * 1_000_000_000u128 + (frac as u128);
    assert(time_magnitude(t@) == Some(total as nat));
    if neg {
        if total > 0x8000_0000_0000_0000u128 {
            return None;
        }
        let m: i128 = 0 - (total as i128);
        Some(m as i64)
    } else {
        if total > 0x7FFF_FFFF_FFFF_FFFFu128 {
            return None;
        }
        Some(total as i64)
    }
}

/// The first nine digits of a decimal fraction, as nanoseconds.
pub open spec fn fraction_value(f: Seq<char>) -> nat {
    let f9 = f.take(
        if f.len() < 9 {
            f.len() as int
        } else {
            9
        },
    );
    digits_value(f9, 10) * pow10((9 - f9.len()) as nat)
}

fn fraction_ns(f: &[char]) -> (v: u64)
    requires
        crate::text::all_radix_digits(f@, 10),
    ensures
        v == fraction_value(f@),
        v < 1_000_000_000,
{
    let n = f.len();
    let n9: usize = if n < 9 {
        n
    } else {
        9
    };
    let ghost f9 = f@.take(n9 as int);
    let mut frac: u64 = 0;
    let mut i: usize = 0;
    assert(f9.take(0) =~= Seq::<char>::empty());
    while i < n9
        invariant
            0 <= i <= n9 <= 9,
            n9 <= f@.len(),
            f9 == f@.take(n9 as int),
            crate::text::all_radix_digits(f@, 10),
            frac == digits_value(f9.take(i as int), 10),
            frac < pow10(i as nat),
        decreases n9 - i,
    {
        let c = f[i];
        assert(crate::text::is_radix_digit(f@[i as int], 10));
        let d = (c as u32 - '0' as u32) as u64;
        proof {
            lemma_pow10_bound((i + 1) as nat);
        }
        assert(f9.take(i + 1).drop_last() =~= f9.take(i as int));
        assert(f9.take(i + 1).last() == c);
        frac = frac * 10 + d;
        i = i + 1;
    }
    assert(f9.take(n9 as int) =~= f9);
    assert(pow10(0) == 1);
    assert(frac == digits_value(f9, 10) * pow10(0));
    let mut j: usize = n9;
    while j < 9
        invariant
            n9 <= j <= 9,
            f9.len() == n9,
            frac == digits_value(f9, 10) * pow10((j - n9) as nat),
            frac < pow10(j as nat),
        decreases 9 - j,
    {
        proof {
            lemma_pow10_bound((j + 1) as nat);
            let x = digits_value(f9, 10);
            let y = pow10((j - n9) as nat);
            assert(pow10((j + 1 - n9) as nat) == 10 * y);
            assert(x * (10 * y) == 10 * (x * y)) by (nonlinear_arith);
        }
        frac = frac * 10;
        j = j + 1;
    }
    proof {
        lemma_pow10_bound(9);
    }
    frac
}

proof fn lemma_skip_shift(s: Seq<char>, lo: int, hi: int, p: int)
    requires
        0 <= lo <= p <= hi <= s.len(),
    ensures
        skip_class(s.subrange(lo, hi), p - lo, CharClass::Digit) + lo == if skip_class(
            s,
            p,
            CharClass::Digit,
        ) < hi {
            skip_class(s, p, CharClass::Digit)
        } else {
            hi
        },
    decreases hi - p,
{
    let t = s.subrange(lo, hi);
    crate::dbc::parser::lemma_skip_class_bounds(s, p, CharClass::Digit);
    if p < hi {
        assert(t[p - lo] == s[p]);
        if crate::dbc::parser::in_class(s[p], CharClass::Digit) {
            lemma_skip_shift(s, lo, hi, p + 1);
        }
    }
}


/// `ranges` locates the tokens `parts` in `s`.
pub open spec fn locates(s: Seq<char>, ranges: Seq<(usize, usize)>, parts: Seq<Seq<char>>) -> bool {
    &&& ranges.len() == parts.len()
    &&& forall|k: int|
        0 <= k < ranges.len() ==> #[trigger] ranges[k].0 <= ranges[k].1 <= s.len() && s.subrange(
            ranges[k].0 as int,
            ranges[k].1 as int,
        ) == parts[k]
}

/// The readable hexadecimal bytes among the tokens `from..to`.
fn hex_token_bytes(
    s: &[char],
    ranges: &Vec<(usize, usize)>,
    from: usize,
    to: usize,
    Ghost(parts): Ghost<Seq<Seq<char>>>,
) -> (data: Vec<u8>)
    requires
        locates(s@, ranges@, parts),
        from <= to <= ranges@.len(),
    ensures
        data@ == hex_tokens(parts.subrange(from as int, to as int)),
{
    let mut data: Vec<u8> = Vec::new();
    let mut i = from;
    assert(parts.subrange(from as int, from as int) =~= Seq::<Seq<char>>::empty());
    while i < to
        invariant
            from <= i <= to <= ranges@.len(),
            locates(s@, ranges@, parts),
            data@ == hex_tokens(parts.subrange(from as int, i as int)),
        decreases to - i,
    {
        let (a, b) = ranges[i];
        assert(ranges@[i as int].0 <= ranges@[i as int].1 <= s@.len());
        let v = parse_uint(s, a, b, 16, 255);
        let ghost next = parts.subrange(from as int, i + 1);
        assert(next.drop_last() =~= parts.subrange(from as int, i as int));
        assert(next.last() == parts[i as int]);
        match v {
            Some(x) => data.push(x as u8),
            None => {},
        }
        i = i + 1;
    }
    data
}

/// The end of `s[lo..hi]` without its trailing `x` characters.
fn trim_x_end(s: &[char], lo: usize, hi: usize) -> (e: usize)
    requires
        lo <= hi <= s@.len(),
    ensures
        lo <= e <= hi,
        s@.subrange(lo as int, e as int) == trim_x(s@.subrange(lo as int, hi as int)),
{
    let mut e = hi;
    while e > lo && s[e - 1] == 'x'
        invariant
            lo <= e <= hi <= s@.len(),
            trim_x(s@.subrange(lo as int, hi as int)) == trim_x(s@.subrange(lo as int, e as int)),
        decreases e - lo,
    {
        assert(s@.subrange(lo as int, e as int).drop_last() =~= s@.subrange(lo as int, e - 1));
        e = e - 1;
    }
    e
}

/// The direction a token names.
fn direction_at(s: &[char], lo: usize, hi: usize) -> (d: Direction)
    requires
        lo <= hi <= s@.len(),
    ensures
        d == direction_of(s@.subrange(lo as int, hi as int)),
{
    let tx = ['T', 'x'];
    assert(tx@ == seq!['T', 'x']);
    if crate::text::range_eq(s, lo, hi, tx.as_slice()) {
        Direction::Tx
    } else {
        Direction::Rx
    }
}

fn parse_classic_line(
    s: &[char],
    ranges: &Vec<(usize, usize)>,
    ts: i64,
    Ghost(parts): Ghost<Seq<Seq<char>>>,
) -> (r: Option<CanFrame>)
    requires
        locates(s@, ranges@, parts),
        parts.len() >= 6,
    ensures
        match r {
            Some(f) => classic_line_frame(parts, ts) == Some(f@),
            None => classic_line_frame(parts, ts) is None,
        },
{
    let (a1, b1) = ranges[1];
    let (a2, b2) = ranges[2];
    let (a3, b3) = ranges[3];
    let (a4, b4) = ranges[4];
    let (a5, b5) = ranges[5];
    assert(ranges@[1].0 <= ranges@[1].1 <= s@.len());
    assert(ranges@[2].0 <= ranges@[2].1 <= s@.len());
    assert(ranges@[3].0 <= ranges@[3].1 <= s@.len());
    assert(ranges@[4].0 <= ranges@[4].1 <= s@.len());
    assert(ranges@[5].0 <= ranges@[5].1 <= s@.len());
    let ch = match parse_uint(s, a1, b1, 10, 255) {
        Some(v) => v,
        None => {
            return None;
        },
    };
    let e2 = trim_x_end(s, a2, b2);
    let id = match parse_uint(s, a2, e2, 16, 0xFFFF_FFFF) {
        Some(v) => v,
        None => {
            return None;
        },
    };
    let is_extended = b2 > a2 && s[b2 - 1] == 'x';
    let direction = direction_at(s, a3, b3);
    let d = ['d'];
    assert(d@ == seq!['d']);
    if !crate::text::range_eq(s, a4, b4, d.as_slice()) {
        return None;
    }
    let dlc = match parse_uint(s, a5, b5, 10, 255) {
        Some(v) => v,
        None => {
            return None;
        },
    };
    let end = if ranges.len() < 6 + dlc as usize {
        ranges.len()
    } else {
        6 + dlc as usize
    };
    let data = hex_token_bytes(s, ranges, 6, end, Ghost(parts));
    let channel: u8 = if ch == 0 {
        0
    } else {
        (ch - 1) as u8
    };
    Some(CanFrame::new_can(ts, channel, id as u32, is_extended, dlc as u8, data.as_slice(), direction))
}

fn parse_fd_line(
    s: &[char],
    ranges: &Vec<(usize, usize)>,
    ts: i64,
    Ghost(parts): Ghost<Seq<Seq<char>>>,
) -> (r: Option<CanFrame>)
    requires
        locates(s@, ranges@, parts),
        parts.len() >= 6,
    ensures
        match r {
            Some(f) => fd_line_frame(parts, ts) == Some(f@),
            None => fd_line_frame(parts, ts) is None,
        },
{
    if ranges.len() < 8 {
        return None;
    }
    let (a2, b2) = ranges[2];
    let (a3, b3) = ranges[3];
    let (a5, b5) = ranges[5];
    let (a6, b6) = ranges[6];
    let (a7, b7) = ranges[7];
    assert(ranges@[2].0 <= ranges@[2].1 <= s@.len());
    assert(ranges@[3].0 <= ranges@[3].1 <= s@.len());
    assert(ranges@[5].0 <= ranges@[5].1 <= s@.len());
    assert(ranges@[6].0 <= ranges@[6].1 <= s@.len());
    assert(ranges@[7].0 <= ranges@[7].1 <= s@.len());
    let id = match parse_uint(s, a2, b2, 16, 0xFFFF_FFFF) {
        Some(v) => v,
        None => {
            return None;
        },
    };
    let direction = direction_at(s, a3, b3);
    let dlc = match parse_uint(s, a5, b5, 10, 255) {
        Some(v) => v,
        None => {
            return None;
        },
    };
    let len_max = usize::MAX as u64;
    let len = match parse_uint(s, a6, b6, 10, len_max) {
        Some(v) => v as usize,
        None => {
            return None;
        },
    };
    let one = ['1'];
    assert(one@ == seq!['1']);
    let is_brs = crate::text::range_eq(s, a7, b7, one.as_slice());
    let end: usize = if ranges.len() < 9 || ranges.len() - 9 < len {
        ranges.len()
    } else {
        9 + len
    };
    let data = if end > 9 {
        hex_token_bytes(s, ranges, 9, end, Ghost(parts))
    } else {
        Vec::new()
    };
    Some(
        CanFrame::new_canfd(
            ts,
            0,
            id as u32,
            id > 0x7FF,
            is_brs,
            dlc as u8,
            data.as_slice(),
            direction,
        ),
    )
}

/// The frame a trimmed ASC line holds, if any.
fn parse_asc_line(s: &[char], lo: usize, hi: usize) -> (r: Option<CanFrame>)
    requires
        lo <= hi <= s@.len(),
    ensures
        match r {
            Some(f) => asc_line_frame(s@.subrange(lo as int, hi as int)) == Some(f@),
            None => asc_line_frame(s@.subrange(lo as int, hi as int)) is None,
        },
{
    let ranges = crate::text::split_ws_ranges(s, lo, hi);
    let ghost parts = split_ws(s@.subrange(lo as int, hi as int));
    assert(locates(s@, ranges@, parts));
    if ranges.len() < 6 {
        return None;
    }
    let (a0, b0) = ranges[0];
    let (a1, b1) = ranges[1];
    assert(ranges@[0].0 <= ranges@[0].1 <= s@.len());
    assert(ranges@[1].0 <= ranges@[1].1 <= s@.len());
    let ts = match parse_time_ns(vstd::slice::slice_subrange(s, a0, b0)) {
        Some(t) => t,
        None => {
            return None;
        },
    };
    let canfd = ['C', 'A', 'N', 'F', 'D'];
    assert(canfd@ == seq!['C', 'A', 'N', 'F', 'D']);
    if crate::text::range_eq(s, a1, b1, canfd.as_slice()) {
        parse_fd_line(s, &ranges, ts, Ghost(parts))
    } else {
        parse_classic_line(s, &ranges, ts, Ghost(parts))
    }
}


fn begins_at(s: &[char], lo: usize, hi: usize, w: &[char]) -> (r: bool)
    requires
        lo <= hi <= s@.len(),
    ensures
        r == begins_with(s@.subrange(lo as int, hi as int), w@),
{
    let r = crate::text::range_starts_with(s, lo, hi, w);
    proof {
        if w@.len() <= hi - lo {
            assert(s@.subrange(lo as int, hi as int).subrange(0, w@.len() as int) =~= s@.subrange(
                lo as int,
                lo + w@.len(),
            ));
        }
    }
    r
}

fn is_skipped_line(s: &[char], lo: usize, hi: usize) -> (r: bool)
    requires
        lo <= hi <= s@.len(),
    ensures
        r == skipped_line(s@.subrange(lo as int, hi as int)),
{
    let w1 = ['d', 'a', 't', 'e'];
    let w2 = ['b', 'a', 's', 'e'];
    let w3 = ['i', 'n', 't', 'e', 'r', 'n', 'a', 'l'];
    let w4 = ['/', '/'];
    let w5 = ['B', 'e', 'g', 'i', 'n'];
    let w6 = ['E', 'n', 'd'];
    assert(w1@ == seq!['d', 'a', 't', 'e']);
    assert(w2@ == seq!['b', 'a', 's', 'e']);
    assert(w3@ == seq!['i', 'n', 't', 'e', 'r', 'n', 'a', 'l']);
    assert(w4@ == seq!['/', '/']);
    assert(w5@ == seq!['B', 'e', 'g', 'i', 'n']);
    assert(w6@ == seq!['E', 'n', 'd']);
    lo == hi || begins_at(s, lo, hi, w1.as_slice()) || begins_at(s, lo, hi, w2.as_slice())
        || begins_at(s, lo, hi, w3.as_slice()) || begins_at(s, lo, hi, w4.as_slice()) || begins_at(
        s,
        lo,
        hi,
        w5.as_slice(),
    ) || begins_at(s, lo, hi, w6.as_slice())
}

/// The frames of an ASC log's text, in order. Header and comment lines,
/// and lines that hold no readable frame, are skipped.
pub fn read_asc(content: &str) -> (frames: Vec<CanFrame>)
    ensures
        frames@.map_values(|f: CanFrame| f@) == asc_frames(crate::text::lines(content@)),
{
    let s = crate::text::chars_of(content);
    let ranges = crate::text::line_ranges(s.as_slice());
    let ghost ls = crate::text::lines(s@);
    let mut frames: Vec<CanFrame> = Vec::new();
    let mut j: usize = 0;
    assert(ls.take(0) =~= Seq::<Seq<char>>::empty());
    while j < ranges.len()
        invariant
            0 <= j <= ranges@.len() == ls.len(),
            ls == crate::text::lines(s@),
            forall|k: int|
                0 <= k < ranges@.len() ==> #[trigger] ranges@[k].0 <= ranges@[k].1 <= s@.len()
                    && s@.subrange(ranges@[k].0 as int, ranges@[k].1 as int) == ls[k],
            frames@.map_values(|f: CanFrame| f@) == asc_frames(ls.take(j as int)),
        decreases ranges@.len() - j,
    {
        let (lo, hi) = ranges[j];
        assert(ranges@[j as int].0 <= ranges@[j as int].1 <= s@.len());
        let (a, b) = crate::text::trim_bounds(s.as_slice(), lo, hi);
        assert(ls.take(j + 1).drop_last() =~= ls.take(j as int));
        assert(ls.take(j + 1).last() == ls[j as int]);
        let ghost before = frames@;
        if !is_skipped_line(s.as_slice(), a, b) {
            match parse_asc_line(s.as_slice(), a, b) {
                Some(f) => {
                    frames.push(f);
                    assert(frames@.map_values(|f: CanFrame| f@) =~= before.map_values(
                        |f: CanFrame| f@,
                    ).push(f@));
                },
                None => {},
            }
        }
        j = j + 1;
    }
    assert(ls.take(j as int) =~= ls);
    frames
}
} // verus!
