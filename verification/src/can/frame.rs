//! The CAN / CAN-FD frame.
use vstd::prelude::*;

use crate::text::{push_padded, radix_digits, string_from_chars, zero_pad};
use crate::vector::types::{dlc_len, dlc_to_len};

verus! {

/// Whether a frame was received or transmitted.
#[derive(Debug, Clone, Copy, PartialEq, Eq, Structural)]
pub enum Direction {
    Rx,
    Tx,
}

/// A CAN or CAN-FD frame.
#[derive(Debug)]
pub struct CanFrame {
    /// Timestamp in nanoseconds.
    pub timestamp_ns: i64,
    /// Channel index (0-based).
    pub channel: u8,
    /// CAN identifier (11-bit or 29-bit).
    pub id: u32,
    /// CAN FD frame.
    pub is_fd: bool,
    /// Extended (29-bit) identifier.
    pub is_extended: bool,
    /// Bit rate switch (CAN FD).
    pub is_brs: bool,
    /// Error state indicator (CAN FD).
    pub is_esi: bool,
    /// Remote transmission request.
    pub is_rtr: bool,
    /// Data length code.
    pub dlc: u8,
    /// Data bytes (up to 64 for CAN FD).
    pub data: Vec<u8>,
    /// Received or transmitted.
    pub direction: Direction,
}

/// The mathematical value of a frame.
pub struct FrameView {
    pub timestamp_ns: i64,
    pub channel: u8,
    pub id: u32,
    pub is_fd: bool,
    pub is_extended: bool,
    pub is_brs: bool,
    pub is_esi: bool,
    pub is_rtr: bool,
    pub dlc: u8,
    pub data: Seq<u8>,
    pub direction: Direction,
}

impl View for CanFrame {
    type V = FrameView;

    open spec fn view(&self) -> FrameView {
        FrameView {
            timestamp_ns: self.timestamp_ns,
            channel: self.channel,
            id: self.id,
            is_fd: self.is_fd,
            is_extended: self.is_extended,
            is_brs: self.is_brs,
            is_esi: self.is_esi,
            is_rtr: self.is_rtr,
            dlc: self.dlc,
            data: self.data@,
            direction: self.direction,
        }
    }
}

/// A time in unsigned nanoseconds (a driver or log clock) as a frame's
/// time: the same number, or the largest frame time when it does not fit.
pub open spec fn time_from_ticks(v: u64) -> i64 {
    if v <= i64::MAX {
        v as i64
    } else {
        i64::MAX
    }
}

/// A frame's time as unsigned nanoseconds: times before zero become zero.
pub open spec fn ticks_of(t: i64) -> u64 {
    if t < 0 {
        0
    } else {
        t as u64
    }
}

/// `time_from_ticks`.
pub fn time_from_u64(v: u64) -> (t: i64)
    ensures
        t == time_from_ticks(v),
{
    if v <= 0x7FFF_FFFF_FFFF_FFFFu64 {
        v as i64
    } else {
        0x7FFF_FFFF_FFFF_FFFFi64
    }
}

/// `ticks_of`.
pub fn time_to_u64(t: i64) -> (v: u64)
    ensures
        v == ticks_of(t),
{
    if t < 0 {
        0
    } else {
        t as u64
    }
}

/// A classic CAN frame as `CanFrame::new_can` builds it.
pub open spec fn classic_frame(
    timestamp_ns: i64,
    channel: u8,
    id: u32,
    is_extended: bool,
    dlc: u8,
    data: Seq<u8>,
    direction: Direction,
) -> FrameView {
    FrameView {
        timestamp_ns,
        channel,
        id,
        is_fd: false,
        is_extended,
        is_brs: false,
        is_esi: false,
        is_rtr: false,
        dlc,
        data,
        direction,
    }
}

/// A CAN FD frame as `CanFrame::new_canfd` builds it.
pub open spec fn fd_frame(
    timestamp_ns: i64,
    channel: u8,
    id: u32,
    is_extended: bool,
    is_brs: bool,
    dlc: u8,
    data: Seq<u8>,
    direction: Direction,
) -> FrameView {
    FrameView {
        timestamp_ns,
        channel,
        id,
        is_fd: true,
        is_extended,
        is_brs,
        is_esi: false,
        is_rtr: false,
        dlc,
        data,
        direction,
    }
}

/// Two hexadecimal digits of a byte.
pub open spec fn byte_hex(b: u8, upper: bool) -> Seq<char> {
    zero_pad(radix_digits(b as nat, 16, upper), 2)
}

/// The bytes of `data` as two-digit hexadecimal numbers separated by spaces.
pub open spec fn hex_bytes(data: Seq<u8>, upper: bool) -> Seq<char>
    decreases data.len(),
{
    if data.len() == 0 {
        seq![]
    } else if data.len() == 1 {
        byte_hex(data[0], upper)
    } else {
        hex_bytes(data.drop_last(), upper) + seq![' '] + byte_hex(data.last(), upper)
    }
}

/// Appends the bytes of `data` as space-separated two-digit hexadecimal numbers.
pub fn push_hex_bytes(out: &mut Vec<char>, data: &[u8], upper: bool)
    ensures
        final(out)@ == old(out)@ + hex_bytes(data@, upper),
{
    let ghost start = out@;
    let mut i: usize = 0;
    while i < data.len()
        invariant
            0 <= i <= data@.len(),
            out@ == start + hex_bytes(data@.take(i as int), upper),
        decreases data@.len() - i,
    {
        let ghost before = out@;
        if i > 0 {
            out.push(' ');
        }
        push_padded(out, data[i] as u64, 16, 2, upper);
        assert(data@.take(i + 1).drop_last() =~= data@.take(i as int));
        if i == 0 {
            assert(out@ =~= start + hex_bytes(data@.take(i + 1), upper));
        } else {
            assert(out@ =~= start + hex_bytes(data@.take(i + 1), upper));
        }
        i = i + 1;
    }
    assert(data@.take(i as int) =~= data@);
}

impl CanFrame {
    /// A classic CAN frame with the given fields.
    pub fn new_can(
        timestamp_ns: i64,
        channel: u8,
        id: u32,
        is_extended: bool,
        dlc: u8,
        data: &[u8],
        direction: Direction,
    ) -> (f: Self)
        ensures
            f@ == classic_frame(timestamp_ns, channel, id, is_extended, dlc, data@, direction),
    {
        CanFrame {
            timestamp_ns,
            channel,
            id,
            is_fd: false,
            is_extended,
            is_brs: false,
            is_esi: false,
            is_rtr: false,
            dlc,
            data: vstd::slice::slice_to_vec(data),
            direction,
        }
    }

    /// A CAN FD frame with the given fields.
    pub fn new_canfd(
        timestamp_ns: i64,
        channel: u8,
        id: u32,
        is_extended: bool,
        is_brs: bool,
        dlc: u8,
        data: &[u8],
        direction: Direction,
    ) -> (f: Self)
        ensures
            f@ == fd_frame(timestamp_ns, channel, id, is_extended, is_brs, dlc, data@, direction),
    {
        CanFrame {
            timestamp_ns,
            channel,
            id,
            is_fd: true,
            is_extended,
            is_brs,
            is_esi: false,
            is_rtr: false,
            dlc,
            data: vstd::slice::slice_to_vec(data),
            direction,
        }
    }

    /// The payload length the data length code announces.
    pub fn data_length(&self) -> (len: usize)
        ensures
            len == if self.is_fd {
                dlc_len(self.dlc)
            } else if self.dlc <= 8 {
                self.dlc as nat
            } else {
                8
            },
    {
        if self.is_fd {
            dlc_to_len(self.dlc)
        } else if self.dlc <= 8 {
            self.dlc as usize
        } else {
            8
        }
    }

    /// The identifier in upper-case hexadecimal: at least 8 digits for an
    /// extended identifier, at least 3 otherwise.
    pub fn id_hex(&self) -> (s: String)
        ensures
            s@ == zero_pad(
                radix_digits(self.id as nat, 16, true),
                if self.is_extended {
                    8
                } else {
                    3
                },
            ),
    {
        let mut out: Vec<char> = Vec::new();
        let width: usize = if self.is_extended {
            8
        } else {
            3
        };
        push_padded(&mut out, self.id as u64, 16, width, true);
        string_from_chars(out.as_slice())
    }

    /// The data bytes as space-separated upper-case two-digit hexadecimal numbers.
    pub fn data_hex(&self) -> (s: String)
        ensures
            s@ == hex_bytes(self.data@, true),
    {
        let mut out: Vec<char> = Vec::new();
        push_hex_bytes(&mut out, self.data.as_slice(), true);
        string_from_chars(out.as_slice())
    }
}

} // verus!
