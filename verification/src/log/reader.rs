//! The log formats that playback reads, chosen by file extension.
use vstd::prelude::*;

verus! {

/// A log file format.
#[derive(Debug, Clone, Copy, PartialEq, Eq, Structural)]
pub enum LogFormat {
    Asc,
    Blf,
}

/// A character in lower case (ASCII letters only change).
pub open spec fn lower(c: char) -> char {
    if 'A' <= c && c <= 'Z' {
        ((c as u32) + 32) as char
    } else {
        c
    }
}

/// Whether `s` spells `w` (given in lower case) in any mix of cases.
pub open spec fn spells(s: Seq<char>, w: Seq<char>) -> bool {
    s.len() == w.len() && forall|i: int| 0 <= i < s.len() ==> lower(#[trigger] s[i]) == w[i]
}

/// The format a file extension names: `asc` or `blf`, in any case.
pub open spec fn format_of(ext: Seq<char>) -> Option<LogFormat> {
    if spells(ext, seq!['a', 's', 'c']) {
        Some(LogFormat::Asc)
    } else if spells(ext, seq!['b', 'l', 'f']) {
        Some(LogFormat::Blf)
    } else {
        None
    }
}

fn lower_char(c: char) -> (r: char)
    ensures
        r == lower(c),
{
    if 'A' <= c && c <= 'Z' {
        ((c as u8) + 32) as char
    } else {
        c
    }
}

fn spells_exec(s: &[char], w: &[char]) -> (b: bool)
    ensures
        b == spells(s@, w@),
{
    if s.len() != w.len() {
        return false;
    }
    let mut i: usize = 0;
    while i < s.len()
        invariant
            s@.len() == w@.len(),
            0 <= i <= s@.len(),
            forall|j: int| 0 <= j < i ==> lower(#[trigger] s@[j]) == w@[j],
        decreases s@.len() - i,
    {
        if lower_char(s[i]) != w[i] {
            return false;
        }
        i = i + 1;
    }
    true
}

impl LogFormat {
    /// The format of a file with extension `ext` (the text after the last
    /// dot of its name): `asc` or `blf` in any case, else `None`.
    pub fn from_extension(ext: &str) -> (r: Option<LogFormat>)
        ensures
            r == format_of(ext@),
    {
        let s = crate::text::chars_of(ext);
        let asc = ['a', 's', 'c'];
        let blf = ['b', 'l', 'f'];
        assert(asc@ == seq!['a', 's', 'c']);
        assert(blf@ == seq!['b', 'l', 'f']);
        if spells_exec(s.as_slice(), asc.as_slice()) {
            Some(LogFormat::Asc)
        } else if spells_exec(s.as_slice(), blf.as_slice()) {
            Some(LogFormat::Blf)
        } else {
            None
        }
    }
}

} // verus!
