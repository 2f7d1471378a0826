//! The transmission configuration view: the actions it asks for, and the
//! hexadecimal identifier fields it edits.
use vstd::prelude::*;

use crate::text::{parse_bounded, parse_uint, push_padded, radix_digits, string_from_chars, zero_pad};

verus! {

/// An action the transmission configuration view asks for; each names a
/// configuration by its index.
#[derive(Debug, Clone, Copy, PartialEq, Eq, Structural)]
pub enum TxAction {
    StartForward(usize),
    StopForward(usize),
    StartTrapezoidal(usize),
    StopTrapezoidal(usize),
}

/// The text an identifier field shows: upper-case hexadecimal, at least
/// three digits.
pub open spec fn id_field_text(id: u32) -> Seq<char> {
    zero_pad(radix_digits(id as nat, 16, true), 3)
}

/// The text of an identifier field.
pub fn id_field(id: u32) -> (s: String)
    ensures
        s@ == id_field_text(id),
{
    let mut out: Vec<char> = Vec::new();
    push_padded(&mut out, id as u64, 16, 3, true);
    string_from_chars(out.as_slice())
}

/// The identifier an edited field holds: its text read as a hexadecimal
/// `u32`; `None` leaves the identifier as it was.
pub fn parse_id_field(text: &str) -> (r: Option<u32>)
    ensures
        r == (match parse_bounded(text@, 16, u32::MAX as nat) {
            Some(v) => Some(v as u32),
            None => None,
        }),
{
    let s = crate::text::chars_of(text);
    assert(s@.subrange(0, s@.len() as int) =~= s@);
    match parse_uint(s.as_slice(), 0, s.len(), 16, 0xFFFF_FFFF) {
        Some(v) => Some(v as u32),
        None => None,
    }
}

} // verus!
