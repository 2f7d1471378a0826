//! DBC signal definitions: where a signal's bits lie in a frame's data,
//! and how raw values are read from and written into data bytes.
use std::collections::HashMap;
use vstd::arithmetic::div_mod::{lemma_mod_mod, lemma_small_mod};
use vstd::arithmetic::power2::{lemma2_to64, lemma_pow2_adds, lemma_pow2_pos, lemma_pow2_strictly_increases, pow2};
use vstd::bits::{lemma_u64_low_bits_mask_is_mod, lemma_u64_pow2_no_overflow, lemma_u64_shl_is_mul, low_bits_mask};
use vstd::prelude::*;

verus! {

broadcast use vstd::std_specs::hash::group_hash_axioms;

/// Bit order of a signal: Intel (little endian) or Motorola (big endian).
#[derive(Debug, Clone, Copy, PartialEq, Eq, Structural)]
pub enum ByteOrder {
    LittleEndian,
    BigEndian,
}

// ------------------------------------------------------------------
// Bits of bytes and words
// ------------------------------------------------------------------
/// Bit `t` (0 = least significant) of a byte.
pub open spec fn byte_bit(b: u8, t: int) -> bool {
    ((b >> (t as u8)) & 1u8) == 1u8
}

/// Bit `j` (0 = least significant) of a 64-bit word.
pub open spec fn word_bit(v: u64, j: int) -> bool {
    ((v >> (j as u64)) & 1u64) == 1u64
}

/// Bit `p` of a byte sequence: bit `p % 8` of byte `p / 8`; bits beyond
/// the data read as 0.
pub open spec fn data_bit(data: Seq<u8>, p: int) -> bool {
    0 <= p && p / 8 < data.len() && byte_bit(data[p / 8], p % 8)
}

/// Position of the `m`-th bit visited by a Motorola signal starting at
/// `start`: downwards inside a byte, then on to bit 7 of the next byte.
pub open spec fn be_pos(start: int, m: int) -> int {
    let o = 7 - start % 8 + m;
    8 * (start / 8 + o / 8) + (7 - o % 8)
}

/// The visit index of position `p` for a Motorola signal starting at `start`.
pub open spec fn be_visit(start: int, p: int) -> int {
    8 * (p / 8) - p % 8 + 2 * (start % 8) - start
}

/// Position in the data of bit `j` of the raw value.
pub open spec fn value_pos(order: ByteOrder, start: int, len: int, j: int) -> int {
    match order {
        ByteOrder::LittleEndian => start + j,
        ByteOrder::BigEndian => be_pos(start, len - 1 - j),
    }
}

/// Which bit of the raw value lies at data position `p` (out of `0..len`
/// where the signal does not cover `p`).
pub open spec fn value_index(order: ByteOrder, start: int, len: int, p: int) -> int {
    match order {
        ByteOrder::LittleEndian => p - start,
        ByteOrder::BigEndian => len - 1 - be_visit(start, p),
    }
}

proof fn lemma_be_pos_visit(start: int, m: int)
    requires
        start >= 0,
        m >= 0,
    ensures
        be_visit(start, be_pos(start, m)) == m,
        be_pos(start, m) >= 0,
{
    let o = 7 - start % 8 + m;
    assert(0 <= 7 - o % 8 < 8);
    let p = be_pos(start, m);
    assert(p / 8 == start / 8 + o / 8);
    assert(p % 8 == 7 - o % 8);
}

proof fn lemma_be_visit_pos(start: int, p: int)
    requires
        start >= 0,
        p >= 0,
        be_visit(start, p) >= 0,
    ensures
        be_pos(start, be_visit(start, p)) == p,
{
    let m = be_visit(start, p);
    let o = 7 - start % 8 + m;
    assert(o == 8 * (p / 8 - start / 8) + (7 - p % 8));
    assert(o / 8 == p / 8 - start / 8);
    assert(o % 8 == 7 - p % 8);
}

/// `value_index` inverts `value_pos`.
pub proof fn lemma_value_index_pos(order: ByteOrder, start: int, len: int, j: int)
    requires
        start >= 0,
        0 <= j < len,
    ensures
        value_index(order, start, len, value_pos(order, start, len, j)) == j,
        value_pos(order, start, len, j) >= 0,
{
    if order == ByteOrder::BigEndian {
        lemma_be_pos_visit(start, len - 1 - j);
    }
}

/// `value_pos` inverts `value_index` on the positions the signal covers.
pub proof fn lemma_value_pos_index(order: ByteOrder, start: int, len: int, p: int)
    requires
        start >= 0,
        p >= 0,
        0 <= value_index(order, start, len, p) < len,
    ensures
        value_pos(order, start, len, value_index(order, start, len, p)) == p,
{
    if order == ByteOrder::BigEndian {
        lemma_be_visit_pos(start, p);
    }
}

proof fn lemma_byte_bit_test(b: u8, t: u8)
    requires
        t < 8,
    ensures
        ((b & (1u8 << t)) != 0u8) == (((b >> t) & 1u8) == 1u8),
{
    assert(((b & (1u8 << t)) != 0u8) == (((b >> t) & 1u8) == 1u8)) by (bit_vector)
        requires
            t < 8,
    ;
}

proof fn lemma_word_or_bit(v: u64, i: u64, j: u64)
    requires
        i < 64,
        j < 64,
    ensures
        (((v | (1u64 << i)) >> j) & 1u64 == 1u64) == ((((v >> j) & 1u64) == 1u64) || i == j),
{
    assert((((v | (1u64 << i)) >> j) & 1u64 == 1u64) == ((((v >> j) & 1u64) == 1u64) || i == j))
        by (bit_vector)
        requires
            i < 64,
            j < 64,
    ;
}

proof fn lemma_word_test_bit(v: u64, i: u64)
    requires
        i < 64,
    ensures
        ((v & (1u64 << i)) != 0u64) == (((v >> i) & 1u64) == 1u64),
{
    assert(((v & (1u64 << i)) != 0u64) == (((v >> i) & 1u64) == 1u64)) by (bit_vector)
        requires
            i < 64,
    ;
}

proof fn lemma_zero_bits(j: u64)
    requires
        j < 64,
    ensures
        ((0u64 >> j) & 1u64) != 1u64,
{
    assert(((0u64 >> j) & 1u64) != 1u64) by (bit_vector);
}

/// The raw value of a signal read from `data`: bit `j` of the result is the
/// data bit at `value_pos(j)` for `j < len`, and 0 above.
pub open spec fn extracted_bits(
    data: Seq<u8>,
    order: ByteOrder,
    start: int,
    len: int,
    r: u64,
) -> bool {
    forall|j: int|
        0 <= j < 64 ==> #[trigger] word_bit(r, j) == (j < len && data_bit(
            data,
            value_pos(order, start, len, j),
        ))
}

fn extract_raw_le(data: &[u8], start_bit: u32, bit_length: u32) -> (value: u64)
    requires
        bit_length <= 64,
        start_bit + bit_length <= u32::MAX + 1,
    ensures
        extracted_bits(
            data@,
            ByteOrder::LittleEndian,
            start_bit as int,
            bit_length as int,
            value,
        ),
{
    let mut value: u64 = 0;
    let mut i: u32 = 0;
    assert forall|j: int| 0 <= j < 64 implies !#[trigger] word_bit(value, j) by {
        lemma_zero_bits(j as u64);
    }
    while i < bit_length
        invariant
            i <= bit_length <= 64,
            start_bit + bit_length <= u32::MAX + 1,
            forall|j: int|
                0 <= j < 64 ==> #[trigger] word_bit(value, j) == (j < i && data_bit(
                    data@,
                    start_bit + j,
                )),
        decreases bit_length - i,
    {
        let bit_pos: u32 = start_bit + i;
        let byte_idx = (bit_pos / 8) as usize;
        let bit_idx: u8 = (bit_pos % 8) as u8;
        let ghost old_value = value;
        let mut set = false;
        if byte_idx < data.len() {
            proof {
                lemma_byte_bit_test(data@[byte_idx as int], bit_idx);
            }
            if data[byte_idx] & (1u8 << bit_idx) != 0 {
                value = value | (1u64 << i);
                set = true;
            }
        }
        assert(set == data_bit(data@, start_bit + i));
        assert forall|j: int| 0 <= j < 64 implies #[trigger] word_bit(value, j) == (j < i + 1
            && data_bit(data@, start_bit + j)) by {
            assert(word_bit(old_value, j) == (j < i && data_bit(data@, start_bit + j)));
            if set {
                lemma_word_or_bit(old_value, i as u64, j as u64);
            }
        }
        i = i + 1;
    }
    value
}

fn extract_raw_be(data: &[u8], start_bit: u32, bit_length: u32) -> (value: u64)
    requires
        bit_length <= 64,
    ensures
        extracted_bits(data@, ByteOrder::BigEndian, start_bit as int, bit_length as int, value),
{
    let mut value: u64 = 0;
    let mut bit_count: u32 = 0;
    let mut byte_idx: usize = (start_bit / 8) as usize;
    let mut bit_idx: u8 = (start_bit % 8) as u8;
    let ghost s = start_bit as int;
    let ghost len = bit_length as int;
    assert forall|j: int| 0 <= j < 64 implies !#[trigger] word_bit(value, j) by {
        lemma_zero_bits(j as u64);
    }
    while bit_count < bit_length
        invariant
            bit_count <= bit_length <= 64,
            s == start_bit,
            len == bit_length,
            bit_idx < 8,
            byte_idx as int == s / 8 + (7 - s % 8 + bit_count) / 8,
            bit_idx as int == 7 - (7 - s % 8 + bit_count) % 8,
            forall|j: int|
                0 <= j < 64 ==> #[trigger] word_bit(value, j) == (len - bit_count <= j < len
                    && data_bit(data@, be_pos(s, len - 1 - j))),
        decreases bit_length - bit_count,
    {
        let ghost old_value = value;
        let ghost p = be_pos(s, bit_count as int);
        assert(p == 8 * byte_idx + bit_idx);
        assert(p / 8 == byte_idx && p % 8 == bit_idx);
        let mut set = false;
        let shift: u32 = bit_length - 1 - bit_count;
        if byte_idx < data.len() {
            proof {
                lemma_byte_bit_test(data@[byte_idx as int], bit_idx);
            }
            if data[byte_idx] & (1u8 << bit_idx) != 0 {
                value = value | (1u64 << shift);
                set = true;
            }
        }
        assert(set == data_bit(data@, p));
        assert forall|j: int| 0 <= j < 64 implies #[trigger] word_bit(value, j) == (len - (
        bit_count + 1) <= j < len && data_bit(data@, be_pos(s, len - 1 - j))) by {
            assert(word_bit(old_value, j) == (len - bit_count <= j < len && data_bit(
                data@,
                be_pos(s, len - 1 - j),
            )));
            if set {
                lemma_word_or_bit(old_value, shift as u64, j as u64);
            }
        }
        bit_count = bit_count + 1;
        if bit_idx == 0 {
            bit_idx = 7;
            byte_idx = byte_idx + 1;
        } else {
            bit_idx = bit_idx - 1;
        }
    }
    value
}


/// Two words with the same 64 bits are equal.
pub proof fn lemma_word_eq_by_bits(a: u64, b: u64)
    requires
        forall|j: int| 0 <= j < 64 ==> #[trigger] word_bit(a, j) == word_bit(b, j),
    ensures
        a == b,
{
    assert(word_bit(a, 0) == word_bit(b, 0));
    assert(word_bit(a, 1) == word_bit(b, 1));
    assert(word_bit(a, 2) == word_bit(b, 2));
    assert(word_bit(a, 3) == word_bit(b, 3));
    assert(word_bit(a, 4) == word_bit(b, 4));
    assert(word_bit(a, 5) == word_bit(b, 5));
    assert(word_bit(a, 6) == word_bit(b, 6));
    assert(word_bit(a, 7) == word_bit(b, 7));
    assert(word_bit(a, 8) == word_bit(b, 8));
    assert(word_bit(a, 9) == word_bit(b, 9));
    assert(word_bit(a, 10) == word_bit(b, 10));
    assert(word_bit(a, 11) == word_bit(b, 11));
    assert(word_bit(a, 12) == word_bit(b, 12));
    assert(word_bit(a, 13) == word_bit(b, 13));
    assert(word_bit(a, 14) == word_bit(b, 14));
    assert(word_bit(a, 15) == word_bit(b, 15));
    assert(word_bit(a, 16) == word_bit(b, 16));
    assert(word_bit(a, 17) == word_bit(b, 17));
    assert(word_bit(a, 18) == word_bit(b, 18));
    assert(word_bit(a, 19) == word_bit(b, 19));
    assert(word_bit(a, 20) == word_bit(b, 20));
    assert(word_bit(a, 21) == word_bit(b, 21));
    assert(word_bit(a, 22) == word_bit(b, 22));
    assert(word_bit(a, 23) == word_bit(b, 23));
    assert(word_bit(a, 24) == word_bit(b, 24));
    assert(word_bit(a, 25) == word_bit(b, 25));
    assert(word_bit(a, 26) == word_bit(b, 26));
    assert(word_bit(a, 27) == word_bit(b, 27));
    assert(word_bit(a, 28) == word_bit(b, 28));
    assert(word_bit(a, 29) == word_bit(b, 29));
    assert(word_bit(a, 30) == word_bit(b, 30));
    assert(word_bit(a, 31) == word_bit(b, 31));
    assert(word_bit(a, 32) == word_bit(b, 32));
    assert(word_bit(a, 33) == word_bit(b, 33));
    assert(word_bit(a, 34) == word_bit(b, 34));
    assert(word_bit(a, 35) == word_bit(b, 35));
    assert(word_bit(a, 36) == word_bit(b, 36));
    assert(word_bit(a, 37) == word_bit(b, 37));
    assert(word_bit(a, 38) == word_bit(b, 38));
    assert(word_bit(a, 39) == word_bit(b, 39));
    assert(word_bit(a, 40) == word_bit(b, 40));
    assert(word_bit(a, 41) == word_bit(b, 41));
    assert(word_bit(a, 42) == word_bit(b, 42));
    assert(word_bit(a, 43) == word_bit(b, 43));
    assert(word_bit(a, 44) == word_bit(b, 44));
    assert(word_bit(a, 45) == word_bit(b, 45));
    assert(word_bit(a, 46) == word_bit(b, 46));
    assert(word_bit(a, 47) == word_bit(b, 47));
    assert(word_bit(a, 48) == word_bit(b, 48));
    assert(word_bit(a, 49) == word_bit(b, 49));
    assert(word_bit(a, 50) == word_bit(b, 50));
    assert(word_bit(a, 51) == word_bit(b, 51));
    assert(word_bit(a, 52) == word_bit(b, 52));
    assert(word_bit(a, 53) == word_bit(b, 53));
    assert(word_bit(a, 54) == word_bit(b, 54));
    assert(word_bit(a, 55) == word_bit(b, 55));
    assert(word_bit(a, 56) == word_bit(b, 56));
    assert(word_bit(a, 57) == word_bit(b, 57));
    assert(word_bit(a, 58) == word_bit(b, 58));
    assert(word_bit(a, 59) == word_bit(b, 59));
    assert(word_bit(a, 60) == word_bit(b, 60));
    assert(word_bit(a, 61) == word_bit(b, 61));
    assert(word_bit(a, 62) == word_bit(b, 62));
    assert(word_bit(a, 63) == word_bit(b, 63));
    assert(a == b) by (bit_vector)
        requires
            (((a >> 0u64) & 1u64) == 1u64) == (((b >> 0u64) & 1u64) == 1u64),
            (((a >> 1u64) & 1u64) == 1u64) == (((b >> 1u64) & 1u64) == 1u64),
            (((a >> 2u64) & 1u64) == 1u64) == (((b >> 2u64) & 1u64) == 1u64),
            (((a >> 3u64) & 1u64) == 1u64) == (((b >> 3u64) & 1u64) == 1u64),
            (((a >> 4u64) & 1u64) == 1u64) == (((b >> 4u64) & 1u64) == 1u64),
            (((a >> 5u64) & 1u64) == 1u64) == (((b >> 5u64) & 1u64) == 1u64),
            (((a >> 6u64) & 1u64) == 1u64) == (((b >> 6u64) & 1u64) == 1u64),
            (((a >> 7u64) & 1u64) == 1u64) == (((b >> 7u64) & 1u64) == 1u64),
            (((a >> 8u64) & 1u64) == 1u64) == (((b >> 8u64) & 1u64) == 1u64),
            (((a >> 9u64) & 1u64) == 1u64) == (((b >> 9u64) & 1u64) == 1u64),
            (((a >> 10u64) & 1u64) == 1u64) == (((b >> 10u64) & 1u64) == 1u64),
            (((a >> 11u64) & 1u64) == 1u64) == (((b >> 11u64) & 1u64) == 1u64),
            (((a >> 12u64) & 1u64) == 1u64) == (((b >> 12u64) & 1u64) == 1u64),
            (((a >> 13u64) & 1u64) == 1u64) == (((b >> 13u64) & 1u64) == 1u64),
            (((a >> 14u64) & 1u64) == 1u64) == (((b >> 14u64) & 1u64) == 1u64),
            (((a >> 15u64) & 1u64) == 1u64) == (((b >> 15u64) & 1u64) == 1u64),
            (((a >> 16u64) & 1u64) == 1u64) == (((b >> 16u64) & 1u64) == 1u64),
            (((a >> 17u64) & 1u64) == 1u64) == (((b >> 17u64) & 1u64) == 1u64),
            (((a >> 18u64) & 1u64) == 1u64) == (((b >> 18u64) & 1u64) == 1u64),
            (((a >> 19u64) & 1u64) == 1u64) == (((b >> 19u64) & 1u64) == 1u64),
            (((a >> 20u64) & 1u64) == 1u64) == (((b >> 20u64) & 1u64) == 1u64),
            (((a >> 21u64) & 1u64) == 1u64) == (((b >> 21u64) & 1u64) == 1u64),
            (((a >> 22u64) & 1u64) == 1u64) == (((b >> 22u64) & 1u64) == 1u64),
            (((a >> 23u64) & 1u64) == 1u64) == (((b >> 23u64) & 1u64) == 1u64),
            (((a >> 24u64) & 1u64) == 1u64) == (((b >> 24u64) & 1u64) == 1u64),
            (((a >> 25u64) & 1u64) == 1u64) == (((b >> 25u64) & 1u64) == 1u64),
            (((a >> 26u64) & 1u64) == 1u64) == (((b >> 26u64) & 1u64) == 1u64),
            (((a >> 27u64) & 1u64) == 1u64) == (((b >> 27u64) & 1u64) == 1u64),
            (((a >> 28u64) & 1u64) == 1u64) == (((b >> 28u64) & 1u64) == 1u64),
            (((a >> 29u64) & 1u64) == 1u64) == (((b >> 29u64) & 1u64) == 1u64),
            (((a >> 30u64) & 1u64) == 1u64) == (((b >> 30u64) & 1u64) == 1u64),
            (((a >> 31u64) & 1u64) == 1u64) == (((b >> 31u64) & 1u64) == 1u64),
            (((a >> 32u64) & 1u64) == 1u64) == (((b >> 32u64) & 1u64) == 1u64),
            (((a >> 33u64) & 1u64) == 1u64) == (((b >> 33u64) & 1u64) == 1u64),
            (((a >> 34u64) & 1u64) == 1u64) == (((b >> 34u64) & 1u64) == 1u64),
            (((a >> 35u64) & 1u64) == 1u64) == (((b >> 35u64) & 1u64) == 1u64),
            (((a >> 36u64) & 1u64) == 1u64) == (((b >> 36u64) & 1u64) == 1u64),
            (((a >> 37u64) & 1u64) == 1u64) == (((b >> 37u64) & 1u64) == 1u64),
            (((a >> 38u64) & 1u64) == 1u64) == (((b >> 38u64) & 1u64) == 1u64),
            (((a >> 39u64) & 1u64) == 1u64) == (((b >> 39u64) & 1u64) == 1u64),
            (((a >> 40u64) & 1u64) == 1u64) == (((b >> 40u64) & 1u64) == 1u64),
            (((a >> 41u64) & 1u64) == 1u64) == (((b >> 41u64) & 1u64) == 1u64),
            (((a >> 42u64) & 1u64) == 1u64) == (((b >> 42u64) & 1u64) == 1u64),
            (((a >> 43u64) & 1u64) == 1u64) == (((b >> 43u64) & 1u64) == 1u64),
            (((a >> 44u64) & 1u64) == 1u64) == (((b >> 44u64) & 1u64) == 1u64),
            (((a >> 45u64) & 1u64) == 1u64) == (((b >> 45u64) & 1u64) == 1u64),
            (((a >> 46u64) & 1u64) == 1u64) == (((b >> 46u64) & 1u64) == 1u64),
            (((a >> 47u64) & 1u64) == 1u64) == (((b >> 47u64) & 1u64) == 1u64),
            (((a >> 48u64) & 1u64) == 1u64) == (((b >> 48u64) & 1u64) == 1u64),
            (((a >> 49u64) & 1u64) == 1u64) == (((b >> 49u64) & 1u64) == 1u64),
            (((a >> 50u64) & 1u64) == 1u64) == (((b >> 50u64) & 1u64) == 1u64),
            (((a >> 51u64) & 1u64) == 1u64) == (((b >> 51u64) & 1u64) == 1u64),
            (((a >> 52u64) & 1u64) == 1u64) == (((b >> 52u64) & 1u64) == 1u64),
            (((a >> 53u64) & 1u64) == 1u64) == (((b >> 53u64) & 1u64) == 1u64),
            (((a >> 54u64) & 1u64) == 1u64) == (((b >> 54u64) & 1u64) == 1u64),
            (((a >> 55u64) & 1u64) == 1u64) == (((b >> 55u64) & 1u64) == 1u64),
            (((a >> 56u64) & 1u64) == 1u64) == (((b >> 56u64) & 1u64) == 1u64),
            (((a >> 57u64) & 1u64) == 1u64) == (((b >> 57u64) & 1u64) == 1u64),
            (((a >> 58u64) & 1u64) == 1u64) == (((b >> 58u64) & 1u64) == 1u64),
            (((a >> 59u64) & 1u64) == 1u64) == (((b >> 59u64) & 1u64) == 1u64),
            (((a >> 60u64) & 1u64) == 1u64) == (((b >> 60u64) & 1u64) == 1u64),
            (((a >> 61u64) & 1u64) == 1u64) == (((b >> 61u64) & 1u64) == 1u64),
            (((a >> 62u64) & 1u64) == 1u64) == (((b >> 62u64) & 1u64) == 1u64),
            (((a >> 63u64) & 1u64) == 1u64) == (((b >> 63u64) & 1u64) == 1u64),
    ;
}

/// Two bytes with the same 8 bits are equal.
pub proof fn lemma_byte_eq_by_bits(a: u8, b: u8)
    requires
        forall|t: int| 0 <= t < 8 ==> #[trigger] byte_bit(a, t) == byte_bit(b, t),
    ensures
        a == b,
{
    assert(byte_bit(a, 0) == byte_bit(b, 0));
    assert(byte_bit(a, 1) == byte_bit(b, 1));
    assert(byte_bit(a, 2) == byte_bit(b, 2));
    assert(byte_bit(a, 3) == byte_bit(b, 3));
    assert(byte_bit(a, 4) == byte_bit(b, 4));
    assert(byte_bit(a, 5) == byte_bit(b, 5));
    assert(byte_bit(a, 6) == byte_bit(b, 6));
    assert(byte_bit(a, 7) == byte_bit(b, 7));
    assert(a == b) by (bit_vector)
        requires
            (((a >> 0u8) & 1u8) == 1u8) == (((b >> 0u8) & 1u8) == 1u8),
            (((a >> 1u8) & 1u8) == 1u8) == (((b >> 1u8) & 1u8) == 1u8),
            (((a >> 2u8) & 1u8) == 1u8) == (((b >> 2u8) & 1u8) == 1u8),
            (((a >> 3u8) & 1u8) == 1u8) == (((b >> 3u8) & 1u8) == 1u8),
            (((a >> 4u8) & 1u8) == 1u8) == (((b >> 4u8) & 1u8) == 1u8),
            (((a >> 5u8) & 1u8) == 1u8) == (((b >> 5u8) & 1u8) == 1u8),
            (((a >> 6u8) & 1u8) == 1u8) == (((b >> 6u8) & 1u8) == 1u8),
            (((a >> 7u8) & 1u8) == 1u8) == (((b >> 7u8) & 1u8) == 1u8),
    ;
}

proof fn lemma_byte_set_clear(x: u8, t: u8, u: u8)
    requires
        t < 8,
        u < 8,
    ensures
        ((((x | (1u8 << t)) >> u) & 1u8) == 1u8) == ((((x >> u) & 1u8) == 1u8) || u == t),
        ((((x & !(1u8 << t)) >> u) & 1u8) == 1u8) == ((((x >> u) & 1u8) == 1u8) && u != t),
{
    assert(((((x | (1u8 << t)) >> u) & 1u8) == 1u8) == ((((x >> u) & 1u8) == 1u8) || u == t))
        by (bit_vector)
        requires
            t < 8,
            u < 8,
    ;
    assert(((((x & !(1u8 << t)) >> u) & 1u8) == 1u8) == ((((x >> u) & 1u8) == 1u8) && u != t))
        by (bit_vector)
        requires
            t < 8,
            u < 8,
    ;
}

/// `new` is `old` with the signal's bits replaced by those of `raw`: every
/// covered position inside the data holds the raw bit that belongs there,
/// every other bit is unchanged.
pub open spec fn encoded_bits(
    old: Seq<u8>,
    new: Seq<u8>,
    order: ByteOrder,
    start: int,
    len: int,
    raw: u64,
) -> bool {
    &&& new.len() == old.len()
    &&& forall|p: int|
        0 <= p < 8 * old.len() ==> #[trigger] data_bit(new, p) == if 0 <= value_index(
            order,
            start,
            len,
            p,
        ) < len {
            word_bit(raw, value_index(order, start, len, p))
        } else {
            data_bit(old, p)
        }
}

/// Sets bit `t` of byte `b` of `data` to `on`.
fn write_bit(data: &mut Vec<u8>, b: usize, t: u8, on: bool)
    requires
        b < old(data)@.len(),
        t < 8,
    ensures
        final(data)@.len() == old(data)@.len(),
        forall|p: int|
            0 <= p < 8 * old(data)@.len() ==> #[trigger] data_bit(final(data)@, p) == if p == 8
                * b + t {
                on
            } else {
                data_bit(old(data)@, p)
            },
{
    let x = data[b];
    let y = if on {
        x | (1u8 << t)
    } else {
        x & !(1u8 << t)
    };
    data.set(b, y);
    assert forall|p: int| 0 <= p < 8 * old(data)@.len() implies #[trigger] data_bit(data@, p)
        == if p == 8 * b + t {
        on
    } else {
        data_bit(old(data)@, p)
    } by {
        if p / 8 == b {
            lemma_byte_set_clear(x, t, (p % 8) as u8);
        }
    }
}

fn encode_raw_le(raw: u64, data: &mut Vec<u8>, start_bit: u32, bit_length: u32)
    requires
        bit_length <= 64,
        start_bit + bit_length <= u32::MAX + 1,
    ensures
        encoded_bits(
            old(data)@,
            final(data)@,
            ByteOrder::LittleEndian,
            start_bit as int,
            bit_length as int,
            raw,
        ),
{
    let ghost orig = data@;
    let mut i: u32 = 0;
    while i < bit_length
        invariant
            i <= bit_length <= 64,
            start_bit + bit_length <= u32::MAX + 1,
            data@.len() == orig.len(),
            forall|p: int|
                0 <= p < 8 * orig.len() ==> #[trigger] data_bit(data@, p) == if start_bit <= p
                    < start_bit + i {
                    word_bit(raw, p - start_bit)
                } else {
                    data_bit(orig, p)
                },
        decreases bit_length - i,
    {
        let bit_pos: u32 = start_bit + i;
        let byte_idx = (bit_pos / 8) as usize;
        let bit_idx: u8 = (bit_pos % 8) as u8;
        if byte_idx < data.len() {
            proof {
                lemma_word_test_bit(raw, i as u64);
            }
            let on = raw & (1u64 << i) != 0;
            let ghost before = data@;
            write_bit(data, byte_idx, bit_idx, on);
            assert forall|p: int| 0 <= p < 8 * orig.len() implies #[trigger] data_bit(data@, p)
                == if start_bit <= p < start_bit + i + 1 {
                word_bit(raw, p - start_bit)
            } else {
                data_bit(orig, p)
            } by {
                assert(data_bit(before, p) == if start_bit <= p < start_bit + i {
                    word_bit(raw, p - start_bit)
                } else {
                    data_bit(orig, p)
                });
            }
        } else {
            assert forall|p: int| 0 <= p < 8 * orig.len() implies #[trigger] data_bit(data@, p)
                == if start_bit <= p < start_bit + i + 1 {
                word_bit(raw, p - start_bit)
            } else {
                data_bit(orig, p)
            } by {
                assert(p != start_bit + i);
            }
        }
        i = i + 1;
    }
}

fn encode_raw_be(raw: u64, data: &mut Vec<u8>, start_bit: u32, bit_length: u32)
    requires
        bit_length <= 64,
    ensures
        encoded_bits(
            old(data)@,
            final(data)@,
            ByteOrder::BigEndian,
            start_bit as int,
            bit_length as int,
            raw,
        ),
{
    let ghost orig = data@;
    let ghost s = start_bit as int;
    let ghost len = bit_length as int;
    let mut bit_count: u32 = 0;
    let mut byte_idx: usize = (start_bit / 8) as usize;
    let mut bit_idx: u8 = (start_bit % 8) as u8;
    while bit_count < bit_length
        invariant
            bit_count <= bit_length <= 64,
            s == start_bit,
            len == bit_length,
            bit_idx < 8,
            byte_idx as int == s / 8 + (7 - s % 8 + bit_count) / 8,
            bit_idx as int == 7 - (7 - s % 8 + bit_count) % 8,
            data@.len() == orig.len(),
            forall|p: int|
                0 <= p < 8 * orig.len() ==> #[trigger] data_bit(data@, p) == if 0 <= be_visit(s, p)
                    < bit_count {
                    word_bit(raw, len - 1 - be_visit(s, p))
                } else {
                    data_bit(orig, p)
                },
        decreases bit_length - bit_count,
    {
        let ghost q = be_pos(s, bit_count as int);
        proof {
            lemma_be_pos_visit(s, bit_count as int);
        }
        assert(q == 8 * byte_idx + bit_idx);
        let shift: u32 = bit_length - 1 - bit_count;
        let ghost before = data@;
        if byte_idx < data.len() {
            proof {
                lemma_word_test_bit(raw, shift as u64);
            }
            let on = raw & (1u64 << shift) != 0;
            write_bit(data, byte_idx, bit_idx, on);
        }
        assert forall|p: int| 0 <= p < 8 * orig.len() implies #[trigger] data_bit(data@, p)
            == if 0 <= be_visit(s, p) < bit_count + 1 {
            word_bit(raw, len - 1 - be_visit(s, p))
        } else {
            data_bit(orig, p)
        } by {
            assert(data_bit(before, p) == if 0 <= be_visit(s, p) < bit_count {
                word_bit(raw, len - 1 - be_visit(s, p))
            } else {
                data_bit(orig, p)
            });
            if be_visit(s, p) == bit_count {
                lemma_be_visit_pos(s, p);
            }
        }
        bit_count = bit_count + 1;
        if bit_idx == 0 {
            bit_idx = 7;
            byte_idx = byte_idx + 1;
        } else {
            bit_idx = bit_idx - 1;
        }
    }
}


// ------------------------------------------------------------------
// The signal
// ------------------------------------------------------------------
/// A signal of a DBC message.
///
/// The scaling numbers (`factor`, `offset`, `min`, `max`) are kept as the
/// text the DBC file writes them in; they are floating-point quantities
/// that users of the library evaluate.
#[derive(Debug)]
pub struct DbcSignal {
    pub name: String,
    pub start_bit: u32,
    pub bit_length: u32,
    pub byte_order: ByteOrder,
    pub is_signed: bool,
    pub factor: String,
    pub offset: String,
    pub min: String,
    pub max: String,
    pub unit: String,
    pub receivers: Vec<String>,
    pub value_descriptions: Option<HashMap<i64, String>>,
}

/// The mathematical value of a signal.
pub struct SignalView {
    pub name: Seq<char>,
    pub start_bit: u32,
    pub bit_length: u32,
    pub byte_order: ByteOrder,
    pub is_signed: bool,
    pub factor: Seq<char>,
    pub offset: Seq<char>,
    pub min: Seq<char>,
    pub max: Seq<char>,
    pub unit: Seq<char>,
    pub receivers: Seq<Seq<char>>,
    pub value_descriptions: Option<Map<i64, Seq<char>>>,
}

/// The view of a table of value descriptions.
pub open spec fn descriptions_view(m: Option<HashMap<i64, String>>) -> Option<Map<i64, Seq<char>>> {
    match m {
        Some(m) => Some(m@.map_values(|s: String| s@)),
        None => None,
    }
}

impl View for DbcSignal {
    type V = SignalView;

    open spec fn view(&self) -> SignalView {
        SignalView {
            name: self.name@,
            start_bit: self.start_bit,
            bit_length: self.bit_length,
            byte_order: self.byte_order,
            is_signed: self.is_signed,
            factor: self.factor@,
            offset: self.offset@,
            min: self.min@,
            max: self.max@,
            unit: self.unit@,
            receivers: self.receivers@.map_values(|s: String| s@),
            value_descriptions: descriptions_view(self.value_descriptions),
        }
    }
}

/// The layout fields of a signal are ones its bits can be read and written
/// with: at most 64 bits, and (Intel order) bit positions that fit in `u32`.
pub open spec fn layout_ok(order: ByteOrder, start_bit: u32, bit_length: u32) -> bool {
    &&& bit_length <= 64
    &&& order == ByteOrder::LittleEndian ==> start_bit + bit_length <= u32::MAX + 1
}

/// The integer a raw value stands for: itself for an unsigned signal; for
/// a signed one, its low `len` bits read in two's complement.
pub open spec fn raw_integer(is_signed: bool, len: nat, raw: u64) -> int {
    if is_signed {
        let v = raw as int % pow2(len) as int;
        if v >= pow2((len - 1) as nat) {
            v - pow2(len)
        } else {
            v
        }
    } else {
        raw as int
    }
}

proof fn lemma_top_bit(val: u64, n: u64)
    requires
        1 <= n < 64,
        val < (1u64 << n),
    ensures
        ((val & (1u64 << (n - 1) as u64)) != 0u64) == (val >= (1u64 << (n - 1) as u64)),
{
    assert(((val & (1u64 << (n - 1) as u64)) != 0u64) == (val >= (1u64 << (n - 1) as u64)))
        by (bit_vector)
        requires
            1 <= n < 64,
            val < (1u64 << n),
    ;
}

proof fn lemma_shl_one(n: u64)
    requires
        n < 64,
    ensures
        (1u64 << n) as int == pow2(n as nat),
        ((1u64 << n) - 1) as int == low_bits_mask(n as nat),
{
    lemma_u64_pow2_no_overflow(n as nat);
    lemma_u64_shl_is_mul(1, n);
}

impl DbcSignal {
    /// Whether the signal's layout is one its bits can be read and written
    /// with (what `extract_raw` and `encode_raw` require).
    pub fn layout_valid(&self) -> (b: bool)
        ensures
            b == layout_ok(self.byte_order, self.start_bit, self.bit_length),
    {
        self.bit_length <= 64 && (self.byte_order == ByteOrder::BigEndian || self.start_bit as u64
            + self.bit_length as u64 <= 0x1_0000_0000u64)
    }

    /// Reads the signal's raw value from CAN data bytes. Bits that lie
    /// beyond the data read as 0.
    pub fn extract_raw(&self, data: &[u8]) -> (raw: u64)
        requires
            layout_ok(self.byte_order, self.start_bit, self.bit_length),
        ensures
            extracted_bits(
                data@,
                self.byte_order,
                self.start_bit as int,
                self.bit_length as int,
                raw,
            ),
    {
        match self.byte_order {
            ByteOrder::LittleEndian => extract_raw_le(data, self.start_bit, self.bit_length),
            ByteOrder::BigEndian => extract_raw_be(data, self.start_bit, self.bit_length),
        }
    }

    /// Writes a raw value into the signal's bits of CAN data bytes; bits
    /// beyond the data are not written, all other bits are kept.
    pub fn encode_raw(&self, raw: u64, data: &mut Vec<u8>)
        requires
            layout_ok(self.byte_order, self.start_bit, self.bit_length),
        ensures
            encoded_bits(
                old(data)@,
                final(data)@,
                self.byte_order,
                self.start_bit as int,
                self.bit_length as int,
                raw,
            ),
    {
        match self.byte_order {
            ByteOrder::LittleEndian => encode_raw_le(raw, data, self.start_bit, self.bit_length),
            ByteOrder::BigEndian => encode_raw_be(raw, data, self.start_bit, self.bit_length),
        }
    }

    /// The integer a raw value stands for before scaling: the raw value of
    /// an unsigned signal, the sign-extended low bits of a signed one.
    pub fn raw_to_integer(&self, raw: u64) -> (v: i128)
        requires
            self.is_signed ==> 1 <= self.bit_length <= 63,
        ensures
            v == raw_integer(self.is_signed, self.bit_length as nat, raw),
    {
        if self.is_signed {
            let n = self.bit_length as u64;
            proof {
                lemma_shl_one(n);
                lemma_shl_one((n - 1) as u64);
                lemma_u64_low_bits_mask_is_mod(raw, n as nat);
                lemma_pow2_pos(n as nat);
                lemma_pow2_strictly_increases((n - 1) as nat, n as nat);
            }
            let full: u64 = 1u64 << n;
            let mask: u64 = full - 1;
            let val = raw & mask;
            assert(val as int == raw as int % pow2(n as nat) as int);
            proof {
                lemma_top_bit(val, n);
            }
            if val & (1u64 << (n - 1)) != 0 {
                (val as i128) - (full as i128)
            } else {
                val as i128
            }
        } else {
            raw as i128
        }
    }

    /// The raw value that carries an integer: its residue modulo
    /// 2^bit_length (two's complement truncation for negative integers).
    pub fn integer_to_raw(&self, v: i128) -> (raw: u64)
        requires
            self.bit_length <= 63,
            i64::MIN <= v <= u64::MAX,
        ensures
            raw as int == (v as int) % (pow2(self.bit_length as nat) as int),
    {
        let n = self.bit_length as u64;
        let w: u64 = if v >= 0 {
            v as u64
        } else {
            (v + 18446744073709551616i128) as u64
        };
        proof {
            let vi = v as int;
            let m64 = pow2(64) as int;
            lemma2_to64();
            lemma_shl_one(n);
            lemma_pow2_pos(n as nat);
            lemma_pow2_pos((64 - n) as nat);
            lemma_pow2_adds(n as nat, (64 - n) as nat);
            assert(w as int == vi % m64) by {
                if vi >= 0 {
                    lemma_small_mod(vi as nat, pow2(64));
                } else {
                    vstd::arithmetic::div_mod::lemma_mod_add_multiples_vanish(vi, m64);
                    lemma_small_mod((vi + m64) as nat, pow2(64));
                }
            }
            lemma_mod_mod(vi, pow2(n as nat) as int, pow2((64 - n) as nat) as int);
            lemma_u64_low_bits_mask_is_mod(w, n as nat);
        }
        let mask: u64 = (1u64 << n) - 1;
        w & mask
    }
}

// ------------------------------------------------------------------
// Laws
// ------------------------------------------------------------------
/// Every bit position of the signal lies inside `n` bytes of data.
pub open spec fn fits_in(order: ByteOrder, start: int, len: int, n: int) -> bool {
    forall|j: int| 0 <= j < len ==> #[trigger] value_pos(order, start, len, j) < 8 * n
}

/// The low `len` bits of a word.
pub open spec fn low_bits(v: u64, len: int) -> u64 {
    if len >= 64 {
        v
    } else {
        v & (((1u64 << (len as u64)) - 1) as u64)
    }
}

proof fn lemma_low_bits_bit(v: u64, len: u64, j: u64)
    requires
        len <= 64,
        j < 64,
    ensures
        word_bit(low_bits(v, len as int), j as int) == (j < len && word_bit(v, j as int)),
{
    if len < 64 {
        assert((((v & (((1u64 << len) - 1) as u64)) >> j) & 1u64 == 1u64) == (j < len && ((v >> j)
            & 1u64) == 1u64)) by (bit_vector)
            requires
                len < 64,
                j < 64,
        ;
    }
}

/// Reading a signal back from data it was written into gives the written
/// raw value, cut to the signal's length, when the signal fits in the data.
pub proof fn lemma_extract_after_encode(
    old: Seq<u8>,
    new: Seq<u8>,
    order: ByteOrder,
    start: int,
    len: int,
    raw: u64,
    r: u64,
)
    requires
        0 <= start,
        0 <= len <= 64,
        fits_in(order, start, len, old.len() as int),
        encoded_bits(old, new, order, start, len, raw),
        extracted_bits(new, order, start, len, r),
    ensures
        r == low_bits(raw, len),
{
    assert forall|j: int| 0 <= j < 64 implies #[trigger] word_bit(r, j) == word_bit(
        low_bits(raw, len),
        j,
    ) by {
        lemma_low_bits_bit(raw, len as u64, j as u64);
        if j < len {
            let p = value_pos(order, start, len, j);
            lemma_value_index_pos(order, start, len, j);
            assert(p < 8 * old.len());
            assert(data_bit(new, p) == word_bit(raw, j));
        }
    }
    lemma_word_eq_by_bits(r, low_bits(raw, len));
}

/// Writing back the raw value just read leaves the data unchanged.
pub proof fn lemma_encode_after_extract(
    old: Seq<u8>,
    new: Seq<u8>,
    order: ByteOrder,
    start: int,
    len: int,
    raw: u64,
)
    requires
        0 <= start,
        0 <= len <= 64,
        extracted_bits(old, order, start, len, raw),
        encoded_bits(old, new, order, start, len, raw),
    ensures
        new == old,
{
    assert forall|b: int| 0 <= b < old.len() implies new[b] == old[b] by {
        assert forall|t: int| 0 <= t < 8 implies #[trigger] byte_bit(new[b], t) == byte_bit(
            old[b],
            t,
        ) by {
            let p = 8 * b + t;
            assert(p / 8 == b && p % 8 == t);
            assert(data_bit(new, p) == byte_bit(new[b], t));
            assert(data_bit(old, p) == byte_bit(old[b], t));
            let j = value_index(order, start, len, p);
            if 0 <= j < len {
                lemma_value_pos_index(order, start, len, p);
                assert(word_bit(raw, j) == data_bit(old, value_pos(order, start, len, j)));
            }
        }
        lemma_byte_eq_by_bits(new[b], old[b]);
    }
    assert(new =~= old);
}

/// A signed integer in the range of `len` bits survives the trip to a raw
/// value and back; so does an unsigned one below 2^len.
pub proof fn lemma_integer_raw_roundtrip(is_signed: bool, len: nat, v: int)
    requires
        1 <= len <= 63,
        is_signed ==> -pow2((len - 1) as nat) <= v < pow2((len - 1) as nat),
        !is_signed ==> 0 <= v < pow2(len),
    ensures
        0 <= v % pow2(len) as int <= u64::MAX,
        raw_integer(is_signed, len, (v % pow2(len) as int) as u64) == v,
{
    lemma_pow2_pos(len);
    lemma_pow2_adds((len - 1) as nat, 1);
    vstd::arithmetic::power2::lemma2_to64();
    lemma_u64_pow2_no_overflow(len);
    vstd::arithmetic::div_mod::lemma_fundamental_div_mod(v, pow2(len) as int);
    let m = pow2(len) as int;
    let r = v % m;
    if v >= 0 {
        lemma_small_mod(v as nat, pow2(len));
    } else {
        vstd::arithmetic::div_mod::lemma_mod_add_multiples_vanish(v, m);
        lemma_small_mod((v + m) as nat, pow2(len));
    }
    lemma_small_mod(r as nat, pow2(len));
}

} // verus!
