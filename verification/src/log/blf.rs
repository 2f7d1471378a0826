//! Vector BLF (binary logging format): the bytes written for frames, and
//! the frames read back from a log's bytes. Frames are gathered into
//! zlib-compressed container objects.
use vstd::prelude::*;

use crate::can::frame::{
    classic_frame, fd_frame, ticks_of, time_from_ticks, time_from_u64, time_to_u64, CanFrame,
    Direction, FrameView,
};
use crate::vector::channel::{padded, wire_id, zeros};
use crate::vector::types::{dlc_len, dlc_to_len};

verus! {

/// Signature of every object ("LOBJ").
pub const BLF_OBJECT_SIGNATURE: u32 = 0x4A42_4F4C;
/// Object type of a classic CAN message.
pub const BLF_OBJTYPE_CAN_MESSAGE: u32 = 1;
/// Object type of a CAN FD message.
pub const BLF_OBJTYPE_CAN_FD_MESSAGE: u32 = 100;
/// Object type of a compressed container.
pub const BLF_OBJTYPE_CONTAINER: u32 = 10;
/// Size of the file header.
pub const BLF_HEADER_SIZE: u32 = 144;

// ------------------------------------------------------------------
// Little-endian numbers
// ------------------------------------------------------------------
/// The `n` low bytes of `v`, least significant first.
pub open spec fn le(v: nat, n: nat) -> Seq<u8>
    decreases n,
{
    if n == 0 {
        seq![]
    } else {
        seq![(v % 256) as u8] + le(v / 256, (n - 1) as nat)
    }
}

/// The number whose little-endian bytes are `s`.
pub open spec fn le_value(s: Seq<u8>) -> nat
    decreases s.len(),
{
    if s.len() == 0 {
        0
    } else {
        s[0] as nat + 256 * le_value(s.drop_first())
    }
}

/// 256 to the power `n`.
pub open spec fn pow256(n: nat) -> nat
    decreases n,
{
    if n == 0 {
        1
    } else {
        256 * pow256((n - 1) as nat)
    }
}

/// A number written in `n` bytes takes `n` bytes.
pub proof fn lemma_le_len(v: nat, n: nat)
    ensures
        le(v, n).len() == n,
    decreases n,
{
    if n > 0 {
        lemma_le_len(v / 256, (n - 1) as nat);
    }
}

/// The value of `n` bytes is below 256 to the `n`.
pub proof fn lemma_le_value_bound(s: Seq<u8>)
    ensures
        le_value(s) < pow256(s.len()),
    decreases s.len(),
{
    if s.len() > 0 {
        lemma_le_value_bound(s.drop_first());
    }
}

proof fn lemma_pow256_mono(a: nat, b: nat)
    requires
        a <= b,
    ensures
        1 <= pow256(a) <= pow256(b),
    decreases b,
{
    if b > 0 {
        if a < b {
            lemma_pow256_mono(a, (b - 1) as nat);
        } else {
            lemma_pow256_mono((a - 1) as nat, (b - 1) as nat);
        }
    }
}

proof fn lemma_pow256_8()
    ensures
        pow256(8) == 0x1_0000_0000_0000_0000,
{
    reveal_with_fuel(pow256, 9);
}

/// The value of the bytes of `v` is `v` itself, when it fits.
pub proof fn lemma_le_roundtrip(v: nat, n: nat)
    requires
        v < pow256(n),
    ensures
        le_value(le(v, n)) == v,
    decreases n,
{
    if n > 0 {
        assert(v / 256 < pow256((n - 1) as nat)) by (nonlinear_arith)
            requires
                v < 256 * pow256((n - 1) as nat),
        ;
        lemma_le_roundtrip(v / 256, (n - 1) as nat);
        let s = le(v, n);
        assert(s.drop_first() =~= le(v / 256, (n - 1) as nat));
        assert((v % 256) as u8 as nat == v % 256);
    }
}

/// Appends the `n` low bytes of `v`, least significant first.
fn push_le(out: &mut Vec<u8>, v: u64, n: usize)
    ensures
        final(out)@ == old(out)@ + le(v as nat, n as nat),
    decreases n,
{
    if n > 0 {
        let ghost before = out@;
        out.push((v % 256) as u8);
        push_le(out, v / 256, n - 1);
        assert(out@ =~= before + le(v as nat, n as nat));
    }
}

fn push_all(out: &mut Vec<u8>, s: &[u8])
    ensures
        final(out)@ == old(out)@ + s@,
{
    let ghost start = out@;
    let mut i: usize = 0;
    while i < s.len()
        invariant
            0 <= i <= s@.len(),
            out@ == start + s@.take(i as int),
        decreases s@.len() - i,
    {
        assert(s@.take(i + 1) =~= s@.take(i as int).push(s@[i as int]));
        out.push(s[i]);
        i = i + 1;
    }
    assert(s@.take(i as int) =~= s@);
}

fn push_zeros(out: &mut Vec<u8>, n: usize)
    ensures
        final(out)@ == old(out)@ + zeros(n as nat),
{
    let ghost start = out@;
    let mut i: usize = 0;
    while i < n
        invariant
            0 <= i <= n,
            out@ == start + zeros(i as nat),
        decreases n - i,
    {
        assert(zeros((i + 1) as nat) =~= zeros(i as nat).push(0u8));
        out.push(0);
        i = i + 1;
    }
}

// ------------------------------------------------------------------
// Compression
// ------------------------------------------------------------------
/// The zlib stream that `flate2`'s encoder writes for `data` at the
/// default compression level.
pub uninterp spec fn zlib_deflate(data: Seq<u8>) -> Seq<u8>;

/// The bytes that `flate2`'s zlib decoder reads out of `data`, or `None`
/// when it reports an error.
pub uninterp spec fn zlib_inflate(data: Seq<u8>) -> Option<Seq<u8>>;

/// Whether the zlib decoder reads `b` back out of the stream the encoder
/// writes for it.
pub open spec fn zlib_roundtrips(b: Seq<u8>) -> bool {
    zlib_inflate(zlib_deflate(b)) == Some(b)
}

/// `flate2::write::ZlibEncoder` at `Compression::default()` over a `Vec`:
/// `write_all` of the data, then `finish`. Claims the result is the named
/// stream of the data, and that the decoder reads the data back out of
/// it. Writing into a `Vec` cannot fail, so the error arms do not occur.
#[verifier::external_body]
fn zlib_compress(data: &[u8]) -> (c: Vec<u8>)
    ensures
        c@ == zlib_deflate(data@),
        zlib_inflate(c@) == Some(data@),
{
    let mut encoder = flate2::write::ZlibEncoder::new(Vec::new(), flate2::Compression::default());
    match std::io::Write::write_all(&mut encoder, data) {
        Ok(()) => match encoder.finish() {
            Ok(v) => v,
            Err(_) => Vec::new(),
        },
        Err(_) => Vec::new(),
    }
}

/// `flate2::read::ZlibDecoder` over the bytes, read to the end. Claims the
/// outcome is the named result of the bytes.
#[verifier::external_body]
fn zlib_decompress(data: &[u8]) -> (r: Option<Vec<u8>>)
    ensures
        match r {
            Some(v) => zlib_inflate(data@) == Some(v@),
            None => zlib_inflate(data@) is None,
        },
{
    let mut decoder = flate2::read::ZlibDecoder::new(data);
    let mut buf: Vec<u8> = Vec::new();
    match std::io::Read::read_to_end(&mut decoder, &mut buf) {
        Ok(_) => Some(buf),
        Err(_) => None,
    }
}

// ------------------------------------------------------------------
// Objects written
// ------------------------------------------------------------------
/// `x` rounded up to a multiple of 4.
pub open spec fn align4(x: int) -> int {
    if x % 4 == 0 {
        x
    } else {
        x + 4 - x % 4
    }
}

/// The common header of an object (base part and version-1 extension).
pub open spec fn object_header(size: nat, obj_type: nat, ts: nat) -> Seq<u8> {
    le(BLF_OBJECT_SIGNATURE as nat, 4) + le(16, 2) + le(1, 2) + le(size, 4) + le(obj_type, 4) + le(
        ts,
        8,
    ) + le(0, 8)
}

/// The direction flag byte: 1 for transmitted.
pub open spec fn direction_flag(d: Direction) -> u8 {
    match d {
        Direction::Tx => 1,
        Direction::Rx => 0,
    }
}

/// The message fields of a classic CAN object: channel, data length
/// code, direction flag, identifier.
pub open spec fn can_fields(f: FrameView) -> Seq<u8> {
    le(f.channel as nat, 2) + seq![f.dlc, direction_flag(f.direction)] + le(
        wire_id(f.id, f.is_extended) as nat,
        4,
    )
}

/// The object of a classic CAN frame: 48 bytes, eight data bytes.
pub open spec fn can_object(f: FrameView) -> Seq<u8> {
    object_header(48, BLF_OBJTYPE_CAN_MESSAGE as nat, ticks_of(f.timestamp_ns) as nat) + can_fields(f)
        + padded(f.data, 8)
}

/// The CAN FD flags of a frame: extended data length, bit rate switch,
/// error state indicator.
pub open spec fn fd_flags(f: FrameView) -> nat {
    (if f.is_fd {
        1nat
    } else {
        0
    }) + (if f.is_brs {
        2nat
    } else {
        0
    }) + (if f.is_esi {
        4nat
    } else {
        0
    })
}

/// The number of data bytes a CAN FD object holds: at most 64.
pub open spec fn fd_data_len(f: FrameView) -> nat {
    if f.data.len() < 64 {
        f.data.len()
    } else {
        64
    }
}

/// The size of a CAN FD object: header, 12 bytes of message fields, the
/// data, padded to a multiple of 4.
pub open spec fn fd_size(f: FrameView) -> nat {
    align4(44 + fd_data_len(f) as int) as nat
}

/// The message fields of a CAN FD object: channel, data length code,
/// direction flag, identifier, CAN FD flags.
pub open spec fn fd_fields(f: FrameView) -> Seq<u8> {
    le(f.channel as nat, 2) + seq![f.dlc, direction_flag(f.direction)] + le(
        wire_id(f.id, f.is_extended) as nat,
        4,
    ) + le(fd_flags(f), 4)
}

/// The data of a CAN FD object and its padding.
pub open spec fn fd_payload(f: FrameView) -> Seq<u8> {
    f.data.take(fd_data_len(f) as int) + zeros((fd_size(f) - (44 + fd_data_len(f))) as nat)
}

/// The object of a CAN FD frame.
pub open spec fn fd_object(f: FrameView) -> Seq<u8> {
    object_header(fd_size(f), BLF_OBJTYPE_CAN_FD_MESSAGE as nat, ticks_of(f.timestamp_ns) as nat)
        + fd_fields(f) + fd_payload(f)
}

/// The object a frame is written as.
pub open spec fn frame_object(f: FrameView) -> Seq<u8> {
    if f.is_fd {
        fd_object(f)
    } else {
        can_object(f)
    }
}

/// The container object of a compressed block of `ulen` bytes.
pub open spec fn container_object(c: Seq<u8>, ulen: nat) -> Seq<u8> {
    let total = 40 + c.len();
    let size = align4(total as int) as nat;
    object_header(size, BLF_OBJTYPE_CONTAINER as nat, 0) + le(c.len(), 4) + le(ulen, 4) + c
        + zeros((size - total) as nat)
}

proof fn lemma_concat4(a: Seq<u8>, b: Seq<u8>, c: Seq<u8>, d: Seq<u8>)
    ensures
        a + (b + c + d) == a + b + c + d,
{
    assert(a + (b + c + d) =~= a + b + c + d);
}

/// An object header takes 32 bytes.
pub proof fn lemma_object_header_len(size: nat, obj_type: nat, ts: nat)
    ensures
        object_header(size, obj_type, ts).len() == 32,
{
    lemma_le_len(BLF_OBJECT_SIGNATURE as nat, 4);
    lemma_le_len(16, 2);
    lemma_le_len(1, 2);
    lemma_le_len(size, 4);
    lemma_le_len(obj_type, 4);
    lemma_le_len(ts, 8);
    lemma_le_len(0, 8);
}

fn push_object_header(out: &mut Vec<u8>, size: u32, obj_type: u32, ts: u64)
    ensures
        final(out)@ == old(out)@ + object_header(size as nat, obj_type as nat, ts as nat),
{
    let ghost start = out@;
    push_le(out, BLF_OBJECT_SIGNATURE as u64, 4);
    push_le(out, 16, 2);
    push_le(out, 1, 2);
    push_le(out, size as u64, 4);
    push_le(out, obj_type as u64, 4);
    push_le(out, ts, 8);
    push_le(out, 0, 8);
    assert(out@ =~= start + object_header(size as nat, obj_type as nat, ts as nat));
}

fn push_fd_object(out: &mut Vec<u8>, frame: &CanFrame)
    requires
        frame.is_fd,
    ensures
        final(out)@ == old(out)@ + fd_object(frame@),
{
    let ghost start = out@;
    let id = if frame.is_extended {
        frame.id | 0x8000_0000
    } else {
        frame.id
    };
    let flag: u8 = match frame.direction {
        Direction::Tx => 1,
        Direction::Rx => 0,
    };
    let n: usize = if frame.data.len() < 64 {
        frame.data.len()
    } else {
        64
    };
    let total: u32 = 44 + n as u32;
    let size: u32 = if total % 4 == 0 {
        total
    } else {
        total + 4 - total % 4
    };
    assert(n == fd_data_len(frame@));
    assert(size == fd_size(frame@));
    let mut ff: u64 = 1;
    if frame.is_brs {
        ff = ff + 2;
    }
    if frame.is_esi {
        ff = ff + 4;
    }
    assert(ff == fd_flags(frame@));
    proof {
        lemma_le_len(frame.channel as nat, 2);
        lemma_le_len(id as nat, 4);
        lemma_le_len(ff as nat, 4);
    }
    push_object_header(out, size, BLF_OBJTYPE_CAN_FD_MESSAGE, time_to_u64(frame.timestamp_ns));
    let ghost h = out@;
    let mut fields: Vec<u8> = Vec::new();
    push_le(&mut fields, frame.channel as u64, 2);
    push_all(&mut fields, [frame.dlc, flag].as_slice());
    push_le(&mut fields, id as u64, 4);
    push_le(&mut fields, ff, 4);
    assert(fields@ =~= fd_fields(frame@));
    push_all(out, fields.as_slice());
    let mut rest: Vec<u8> = Vec::new();
    push_all(&mut rest, vstd::slice::slice_subrange(frame.data.as_slice(), 0, n));
    push_zeros(&mut rest, (size - total) as usize);
    assert(rest@ =~= fd_payload(frame@));
    push_all(out, rest.as_slice());
    proof {
        lemma_concat4(
            start,
            object_header(size as nat, BLF_OBJTYPE_CAN_FD_MESSAGE as nat, ticks_of(frame.timestamp_ns) as nat),
            fd_fields(frame@),
            fd_payload(frame@),
        );
    }
}

fn push_can_object(out: &mut Vec<u8>, frame: &CanFrame)
    requires
        !frame.is_fd,
    ensures
        final(out)@ == old(out)@ + can_object(frame@),
{
    let ghost start = out@;
    let id = if frame.is_extended {
        frame.id | 0x8000_0000
    } else {
        frame.id
    };
    let flag: u8 = match frame.direction {
        Direction::Tx => 1,
        Direction::Rx => 0,
    };
    proof {
        lemma_le_len(frame.channel as nat, 2);
        lemma_le_len(id as nat, 4);
    }
    push_object_header(out, 48, BLF_OBJTYPE_CAN_MESSAGE, time_to_u64(frame.timestamp_ns));
    let mut fields: Vec<u8> = Vec::new();
    push_le(&mut fields, frame.channel as u64, 2);
    push_all(&mut fields, [frame.dlc, flag].as_slice());
    push_le(&mut fields, id as u64, 4);
    assert(fields@ =~= can_fields(frame@));
    push_all(out, fields.as_slice());
    let n: usize = if frame.data.len() < 8 {
        frame.data.len()
    } else {
        8
    };
    let mut rest: Vec<u8> = Vec::new();
    push_all(&mut rest, vstd::slice::slice_subrange(frame.data.as_slice(), 0, n));
    push_zeros(&mut rest, 8 - n);
    assert(rest@ =~= padded(frame@.data, 8));
    push_all(out, rest.as_slice());
    assert(out@ =~= start + can_object(frame@));
}

fn push_frame_object(out: &mut Vec<u8>, frame: &CanFrame)
    ensures
        final(out)@ == old(out)@ + frame_object(frame@),
{
    if frame.is_fd {
        push_fd_object(out, frame);
    } else {
        push_can_object(out, frame);
    }
}

/// The size of a frame's object.
pub proof fn lemma_frame_object_len(f: FrameView)
    ensures
        frame_object(f).len() == (if f.is_fd {
            fd_size(f)
        } else {
            48
        }),
        frame_object(f).len() <= 108,
{
    lemma_object_header_len(48, BLF_OBJTYPE_CAN_MESSAGE as nat, ticks_of(f.timestamp_ns) as nat);
    lemma_object_header_len(fd_size(f), BLF_OBJTYPE_CAN_FD_MESSAGE as nat, ticks_of(f.timestamp_ns) as nat);
    lemma_le_len(f.channel as nat, 2);
    lemma_le_len(wire_id(f.id, f.is_extended) as nat, 4);
    lemma_le_len(fd_flags(f), 4);
}

fn push_container(out: &mut Vec<u8>, c: &[u8], ulen: u32)
    requires
        c@.len() + 43 <= u32::MAX,
    ensures
        final(out)@ == old(out)@ + container_object(c@, ulen as nat),
{
    let ghost start = out@;
    let total: u32 = 40 + c.len() as u32;
    let size: u32 = if total % 4 == 0 {
        total
    } else {
        total + 4 - total % 4
    };
    assert(size == align4(total as int));
    push_object_header(out, size, BLF_OBJTYPE_CONTAINER, 0);
    let mut rest: Vec<u8> = Vec::new();
    push_le(&mut rest, c.len() as u64, 4);
    push_le(&mut rest, ulen as u64, 4);
    push_all(&mut rest, c);
    push_zeros(&mut rest, (size - total) as usize);
    let ghost hdr = object_header(size as nat, BLF_OBJTYPE_CONTAINER as nat, 0);
    let ghost body = le(c@.len(), 4) + le(ulen as nat, 4) + c@ + zeros((size - total) as nat);
    assert(rest@ =~= body);
    push_all(out, rest.as_slice());
    assert(container_object(c@, ulen as nat) == hdr + body);
    assert(out@ =~= start + (hdr + body));
}

// ------------------------------------------------------------------
// The writer
// ------------------------------------------------------------------
/// How many buffered bytes make the writer compress them into a container.
pub const BLF_BUFFER_THRESHOLD: usize = 65536;

/// BLF writer state: statistics for the file header and the objects not
/// yet compressed.
pub struct BlfWriter {
    object_count: u32,
    start_timestamp: u64,
    last_timestamp: u64,
    uncompressed_size: u64,
    buffer: Vec<u8>,
    buffer_threshold: usize,
}

/// The state of a BLF writer.
pub struct BlfWriterView {
    /// Frames written.
    pub object_count: u32,
    /// Time of the first frame written.
    pub start_timestamp: u64,
    /// Time of the last frame written.
    pub last_timestamp: u64,
    /// Total size of the frame objects written.
    pub uncompressed_size: u64,
    /// Frame objects not yet compressed.
    pub buffer: Seq<u8>,
    /// How many buffered bytes trigger compression.
    pub buffer_threshold: usize,
}

impl View for BlfWriter {
    type V = BlfWriterView;

    closed spec fn view(&self) -> BlfWriterView {
        BlfWriterView {
            object_count: self.object_count,
            start_timestamp: self.start_timestamp,
            last_timestamp: self.last_timestamp,
            uncompressed_size: self.uncompressed_size,
            buffer: self.buffer@,
            buffer_threshold: self.buffer_threshold,
        }
    }
}

/// The writer's invariant: fewer bytes buffered than the threshold.
pub open spec fn blf_wf(w: BlfWriterView) -> bool {
    w.buffer_threshold == BLF_BUFFER_THRESHOLD && w.buffer.len() < w.buffer_threshold
}

/// The state after a frame's object is buffered.
pub open spec fn recorded(w: BlfWriterView, f: FrameView) -> BlfWriterView {
    BlfWriterView {
        object_count: (w.object_count + 1) as u32,
        start_timestamp: if w.object_count == 0 {
            ticks_of(f.timestamp_ns)
        } else {
            w.start_timestamp
        },
        last_timestamp: ticks_of(f.timestamp_ns),
        uncompressed_size: (w.uncompressed_size + frame_object(f).len()) as u64,
        buffer: w.buffer + frame_object(f),
        buffer_threshold: w.buffer_threshold,
    }
}

/// The state with the buffer emptied.
pub open spec fn emptied(w: BlfWriterView) -> BlfWriterView {
    BlfWriterView {
        object_count: w.object_count,
        start_timestamp: w.start_timestamp,
        last_timestamp: w.last_timestamp,
        uncompressed_size: w.uncompressed_size,
        buffer: seq![],
        buffer_threshold: w.buffer_threshold,
    }
}

/// Whether the compressed buffer fits in a container, whose sizes are
/// 32-bit.
pub open spec fn container_fits(buffer: Seq<u8>) -> bool {
    zlib_deflate(buffer).len() + 43 <= u32::MAX
}

/// Compressing the buffer of `w`: the new state and the container bytes
/// to append to the file (none for an empty buffer), or `None` when the
/// container would not fit.
pub open spec fn flush_outcome(w: BlfWriterView) -> Option<(BlfWriterView, Seq<u8>)> {
    if w.buffer.len() == 0 {
        Some((w, seq![]))
    } else if container_fits(w.buffer) {
        Some((emptied(w), container_object(zlib_deflate(w.buffer), w.buffer.len())))
    } else {
        None
    }
}

/// Writing frame `f`: its object is buffered, and the buffer compressed
/// once it reaches the threshold. The new state and the bytes to append
/// to the file, or `None` when the container would not fit.
pub open spec fn write_outcome(w: BlfWriterView, f: FrameView) -> Option<(BlfWriterView, Seq<u8>)> {
    let a = recorded(w, f);
    if a.buffer.len() < a.buffer_threshold {
        Some((a, seq![]))
    } else {
        flush_outcome(a)
    }
}

/// The state of a writer that has written nothing.
pub open spec fn fresh_writer() -> BlfWriterView {
    BlfWriterView {
        object_count: 0,
        start_timestamp: 0,
        last_timestamp: 0,
        uncompressed_size: 0,
        buffer: seq![],
        buffer_threshold: BLF_BUFFER_THRESHOLD,
    }
}

/// Writing the frames `fs` one after another from state `w`: the final
/// state and all the bytes appended to the file, or `None` when a
/// container would not fit.
pub open spec fn write_all(w: BlfWriterView, fs: Seq<FrameView>) -> Option<(BlfWriterView, Seq<u8>)>
    decreases fs.len(),
{
    if fs.len() == 0 {
        Some((w, seq![]))
    } else {
        match write_all(w, fs.drop_last()) {
            Some((w1, b1)) => match write_outcome(w1, fs.last()) {
                Some((w2, b2)) => Some((w2, b1 + b2)),
                None => None,
            },
            None => None,
        }
    }
}

/// The bytes that follow the file header in a log of the frames `fs`: a
/// new writer writes them all and is finalized.
pub open spec fn blf_log_body(fs: Seq<FrameView>) -> Option<Seq<u8>> {
    match write_all(fresh_writer(), fs) {
        Some((w, b)) => match flush_outcome(w) {
            Some((_, b2)) => Some(b + b2),
            None => None,
        },
        None => None,
    }
}

/// The 67 bytes that open the file (its first 144 bytes are reserved for
/// them): signature, statistics size, API version, platform, flags,
/// first and last time, object count, file sizes.
pub open spec fn file_header_bytes(w: BlfWriterView, file_size: u64) -> Seq<u8> {
    seq![0x42u8, 0x4C, 0x4E, 0x4B, 0x01, 0x00, 0x00] + le(BLF_HEADER_SIZE as nat, 4) + le(0x0403, 4)
        + le(1, 4) + le(0, 4) + le(w.start_timestamp as nat, 8) + le(w.last_timestamp as nat, 8)
        + le(w.object_count as nat, 4) + le(0, 4) + le(file_size as nat, 8) + le(
        (w.uncompressed_size + BLF_HEADER_SIZE) as nat,
        8,
    ) + le(w.object_count as nat, 4)
}

impl BlfWriter {
    /// A writer that has written nothing. The file it writes starts with
    /// `BLF_HEADER_SIZE` zero bytes that `file_header` fills in at the end.
    pub fn new() -> (w: Self)
        ensures
            w@.object_count == 0,
            w@.start_timestamp == 0,
            w@.last_timestamp == 0,
            w@.uncompressed_size == 0,
            w@.buffer.len() == 0,
            w@.buffer_threshold == BLF_BUFFER_THRESHOLD,
            w@ == fresh_writer(),
            blf_wf(w@),
    {
        BlfWriter {
            object_count: 0,
            start_timestamp: 0,
            last_timestamp: 0,
            uncompressed_size: 0,
            buffer: Vec::new(),
            buffer_threshold: BLF_BUFFER_THRESHOLD,
        }
    }

    /// Frames written so far.
    pub fn object_count(&self) -> (n: u32)
        ensures
            n == self@.object_count,
    {
        self.object_count
    }

    /// Total size of the frame objects written so far.
    pub fn uncompressed_size(&self) -> (n: u64)
        ensures
            n == self@.uncompressed_size,
    {
        self.uncompressed_size
    }

    /// Compresses the buffer into a container and returns its bytes, to be
    /// appended to the file (nothing when the buffer is empty). A buffer it
    /// compresses is one the zlib decoder reads back.
    pub fn finalize(&mut self) -> (r: Result<Vec<u8>, String>)
        requires
            blf_wf(old(self)@),
        ensures
            blf_wf(final(self)@),
            match r {
                Ok(bytes) => flush_outcome(old(self)@) == Some((final(self)@, bytes@)),
                Err(_) => flush_outcome(old(self)@) is None && final(self)@ == old(self)@,
            },
            old(self)@.buffer.len() > 0 ==> zlib_roundtrips(old(self)@.buffer),
    {
        if self.buffer.len() == 0 {
            return Ok(Vec::new());
        }
        let c = zlib_compress(self.buffer.as_slice());
        if c.len() > 0xFFFF_FFFF - 43 {
            return Err("BLF container too large".to_owned());
        }
        let mut bytes: Vec<u8> = Vec::new();
        push_container(&mut bytes, c.as_slice(), self.buffer.len() as u32);
        self.buffer.clear();
        assert(self@ == emptied(old(self)@));
        Ok(bytes)
    }

    /// Writes a frame: buffers its object and, once the buffer reaches the
    /// threshold, compresses it into a container whose bytes are returned,
    /// to be appended to the file. A buffer it compresses is one the zlib
    /// decoder reads back.
    pub fn write_frame(&mut self, frame: &CanFrame) -> (r: Result<Vec<u8>, String>)
        requires
            blf_wf(old(self)@),
            old(self)@.object_count < u32::MAX,
            old(self)@.uncompressed_size + 108 <= u64::MAX,
        ensures
            blf_wf(final(self)@),
            match r {
                Ok(bytes) => write_outcome(old(self)@, frame@) == Some((final(self)@, bytes@)),
                Err(_) => write_outcome(old(self)@, frame@) is None && final(self)@ == old(self)@,
            },
            recorded(old(self)@, frame@).buffer.len() >= BLF_BUFFER_THRESHOLD ==> zlib_roundtrips(
                recorded(old(self)@, frame@).buffer,
            ),
    {
        let old_len = self.buffer.len();
        proof {
            lemma_frame_object_len(frame@);
        }
        push_frame_object(&mut self.buffer, frame);
        let obj_len = self.buffer.len() - old_len;
        let mut bytes: Vec<u8> = Vec::new();
        if self.buffer.len() >= self.buffer_threshold {
            let c = zlib_compress(self.buffer.as_slice());
            if c.len() > 0xFFFF_FFFF - 43 {
                self.buffer.truncate(old_len);
                assert(self.buffer@ =~= old(self).buffer@);
                return Err("BLF container too large".to_owned());
            }
            push_container(&mut bytes, c.as_slice(), self.buffer.len() as u32);
            self.buffer.clear();
        }
        if self.object_count == 0 {
            self.start_timestamp = time_to_u64(frame.timestamp_ns);
        }
        self.last_timestamp = time_to_u64(frame.timestamp_ns);
        self.uncompressed_size = self.uncompressed_size + obj_len as u64;
        self.object_count = self.object_count + 1;
        proof {
            let a = recorded(old(self)@, frame@);
            if a.buffer.len() < a.buffer_threshold {
                assert(self@ == a);
            } else {
                assert(self@ == emptied(a));
            }
        }
        Ok(bytes)
    }

    /// The bytes that open the file, once `file_size` bytes have been
    /// written to it; they go at its start.
    pub fn file_header(&self, file_size: u64) -> (h: Vec<u8>)
        requires
            self@.uncompressed_size + BLF_HEADER_SIZE <= u64::MAX,
        ensures
            h@ == file_header_bytes(self@, file_size),
    {
        let mut h: Vec<u8> = Vec::new();
        push_all(&mut h, [0x42u8, 0x4C, 0x4E, 0x4B, 0x01, 0x00, 0x00].as_slice());
        push_le(&mut h, BLF_HEADER_SIZE as u64, 4);
        push_le(&mut h, 0x0403, 4);
        push_le(&mut h, 1, 4);
        push_le(&mut h, 0, 4);
        push_le(&mut h, self.start_timestamp, 8);
        push_le(&mut h, self.last_timestamp, 8);
        push_le(&mut h, self.object_count as u64, 4);
        push_le(&mut h, 0, 4);
        push_le(&mut h, file_size, 8);
        push_le(&mut h, self.uncompressed_size + BLF_HEADER_SIZE as u64, 8);
        push_le(&mut h, self.object_count as u64, 4);
        h
    }
}

// ------------------------------------------------------------------
// Reading
// ------------------------------------------------------------------
/// The little-endian number in the `n` bytes at offset `o`, or 0 when they
/// run past the end (a read that fails).
pub open spec fn field(d: Seq<u8>, o: int, n: nat) -> nat {
    if 0 <= o && o + n <= d.len() {
        le_value(d.subrange(o, o + n))
    } else {
        0
    }
}

/// The `n` bytes at offset `o`, or `n` zero bytes when they run past the
/// end.
pub open spec fn bytes_at(d: Seq<u8>, o: int, n: nat) -> Seq<u8> {
    if 0 <= o && o + n <= d.len() {
        d.subrange(o, o + n)
    } else {
        zeros(n)
    }
}

/// Where the reading position stands after reading `n` bytes at `o`: past
/// them, or at the end of the data when they do not fit.
pub open spec fn read_end(d: Seq<u8>, o: int, n: nat) -> int {
    if o + n <= d.len() {
        o + n
    } else {
        d.len() as int
    }
}

/// The smaller of two positions.
pub open spec fn min_pos(a: int, b: int) -> int {
    if a < b {
        a
    } else {
        b
    }
}

/// The direction a flags byte tells: transmitted when bit 0 is set.
pub open spec fn flag_direction(flags: nat) -> Direction {
    if flags % 2 == 1 {
        Direction::Tx
    } else {
        Direction::Rx
    }
}

/// The identifier in a raw identifier field (its 29 low bits).
pub open spec fn raw_id(raw: nat) -> u32 {
    (raw % 0x2000_0000) as u32
}

/// Whether a raw identifier field marks an extended identifier (bit 31).
pub open spec fn raw_extended(raw: nat) -> bool {
    raw >= 0x8000_0000
}

/// The classic CAN message at offset `o` (channel, data length code,
/// flags, identifier, eight data bytes); the frame holds as many data
/// bytes as its code says, at most eight.
pub open spec fn can_message_at(d: Seq<u8>, o: int, ts: u64) -> FrameView {
    let dlc = field(d, o + 2, 1);
    let raw = field(d, o + 4, 4);
    classic_frame(
        time_from_ticks(ts),
        (field(d, o, 2) % 256) as u8,
        raw_id(raw),
        raw_extended(raw),
        dlc as u8,
        bytes_at(d, o + 8, 8).take(
            if dlc < 8 {
                dlc as int
            } else {
                8
            },
        ),
        flag_direction(field(d, o + 3, 1)),
    )
}

/// The CAN FD message at offset `o` (channel, data length code, flags,
/// identifier, CAN FD flags, the data its code announces): a CAN FD frame
/// when the flags say extended data length, else a classic one.
pub open spec fn fd_message_at(d: Seq<u8>, o: int, ts: u64) -> FrameView {
    let dlc = field(d, o + 2, 1) as u8;
    let raw = field(d, o + 4, 4);
    let ff = field(d, o + 8, 4);
    let data = bytes_at(d, o + 12, dlc_len(dlc));
    let ch = (field(d, o, 2) % 256) as u8;
    let dir = flag_direction(field(d, o + 3, 1));
    if ff % 2 == 1 {
        fd_frame(time_from_ticks(ts), ch, raw_id(raw), raw_extended(raw), (ff / 2) % 2 == 1, dlc, data, dir)
    } else {
        classic_frame(time_from_ticks(ts), ch, raw_id(raw), raw_extended(raw), dlc, data, dir)
    }
}

/// A measure that falls as a reading position advances towards the end.
pub open spec fn remaining(len: nat, p: int) -> nat {
    if p < len {
        (len - p) as nat
    } else {
        0
    }
}

#[verifier::opaque]
/// The frames of the objects in decompressed container data, from `q` on:
/// classic CAN and CAN FD messages are read, objects of any other type
/// skipped by their size. A CAN FD object is passed by its size too.
pub open spec fn nested_frames(n: Seq<u8>, q: int) -> Seq<FrameView>
    decreases remaining(n.len(), q),
{
    if 0 <= q && q + 16 < n.len() && field(n, q, 4) == BLF_OBJECT_SIGNATURE {
        let os = field(n, q + 8, 4);
        let ot = field(n, q + 12, 4);
        let ts = field(n, q + 16, 8) as u64;
        let h = min_pos(q + 32, n.len() as int);
        let past = if os > 32 {
            h + os - 32
        } else {
            h
        };
        if ot == BLF_OBJTYPE_CAN_MESSAGE {
            seq![can_message_at(n, h, ts)] + nested_frames(n, read_end(n, h, 16))
        } else if ot == BLF_OBJTYPE_CAN_FD_MESSAGE {
            seq![fd_message_at(n, h, ts)] + nested_frames(n, past)
        } else {
            nested_frames(n, past)
        }
    } else {
        seq![]
    }
}

/// Whether a top-level object at `p` has consistent sizes: an object size
/// no smaller than its header and extension, and no smaller than 32.
pub open spec fn object_sizes_ok(d: Seq<u8>, p: int) -> bool {
    let hs = field(d, p + 4, 2);
    let os = field(d, p + 8, 4);
    os >= hs + 16 && os >= 32
}

/// The size of the payload the object header at `p` announces.
pub open spec fn payload_size(d: Seq<u8>, p: int) -> int {
    field(d, p + 8, 4) - field(d, p + 4, 2) - 16
}

/// Where the reading position stands after the payload of the object at
/// `p` has been read.
pub open spec fn payload_end(d: Seq<u8>, p: int) -> int {
    let ot = field(d, p + 12, 4);
    let ds = min_pos(p + 32, d.len() as int);
    let size = payload_size(d, p);
    if ot == BLF_OBJTYPE_CAN_MESSAGE && size >= 16 {
        read_end(d, ds, 16)
    } else if ot == BLF_OBJTYPE_CAN_FD_MESSAGE && size >= 12 {
        read_end(d, ds, 12 + dlc_len(field(d, ds + 2, 1) as u8))
    } else if ot == BLF_OBJTYPE_CONTAINER && size >= 8 {
        read_end(d, ds, 8 + field(d, ds, 4))
    } else {
        ds
    }
}

/// The position of the object after the one at `p`: past the object,
/// rounded up to a multiple of 4, unless the payload read went further.
pub open spec fn next_object(d: Seq<u8>, p: int) -> int {
    let ds = min_pos(p + 32, d.len() as int);
    let aligned = align4(ds + field(d, p + 8, 4) - 32);
    let pe = payload_end(d, p);
    if aligned > pe {
        aligned
    } else {
        pe
    }
}

/// The frames of the top-level object at `p`: a classic or CAN FD message,
/// or the messages of a container whose data decompresses.
pub open spec fn object_frames(d: Seq<u8>, p: int) -> Seq<FrameView> {
    let ot = field(d, p + 12, 4);
    let ts = field(d, p + 16, 8) as u64;
    let ds = min_pos(p + 32, d.len() as int);
    let size = payload_size(d, p);
    if ot == BLF_OBJTYPE_CAN_MESSAGE && size >= 16 {
        seq![can_message_at(d, ds, ts)]
    } else if ot == BLF_OBJTYPE_CAN_FD_MESSAGE && size >= 12 {
        seq![fd_message_at(d, ds, ts)]
    } else if ot == BLF_OBJTYPE_CONTAINER && size >= 8 {
        match zlib_inflate(bytes_at(d, ds + 8, field(d, ds, 4))) {
            Some(n) => nested_frames(n, 0),
            None => seq![],
        }
    } else {
        seq![]
    }
}

/// Whether an object starts at `p`: more than 16 bytes remain, and they
/// begin with the object signature.
pub open spec fn object_at(d: Seq<u8>, p: int) -> bool {
    0 <= p && p + 16 < d.len() && field(d, p, 4) == BLF_OBJECT_SIGNATURE
}

/// The frames of the top-level objects from `p` on.
#[verifier::opaque]
pub open spec fn blf_frames_from(d: Seq<u8>, p: int) -> Seq<FrameView>
    decreases remaining(d.len(), p),
{
    if object_at(d, p) && object_sizes_ok(d, p) {
        if next_object(d, p) > p {
            object_frames(d, p) + blf_frames_from(d, next_object(d, p))
        } else {
            object_frames(d, p)
        }
    } else {
        seq![]
    }
}

/// Whether every top-level object from `p` on has consistent sizes.
pub open spec fn blf_sizes_ok_from(d: Seq<u8>, p: int) -> bool
    decreases remaining(d.len(), p),
{
    if object_at(d, p) {
        if object_sizes_ok(d, p) && next_object(d, p) > p {
            blf_sizes_ok_from(d, next_object(d, p))
        } else {
            object_sizes_ok(d, p)
        }
    } else {
        true
    }
}

/// The frames of a BLF log: those of its objects after the file header.
pub open spec fn blf_frames(d: Seq<u8>) -> Seq<FrameView> {
    blf_frames_from(d, BLF_HEADER_SIZE as int)
}

/// Whether every object of a BLF log has consistent sizes.
pub open spec fn blf_sizes_ok(d: Seq<u8>) -> bool {
    blf_sizes_ok_from(d, BLF_HEADER_SIZE as int)
}

/// Reading moves forward from every object with consistent sizes.
pub proof fn lemma_next_object_advances(d: Seq<u8>, p: int)
    requires
        object_at(d, p),
        object_sizes_ok(d, p),
    ensures
        next_object(d, p) > p,
{
}

/// The values of a sequence of frames.
pub open spec fn frame_views(fs: Seq<CanFrame>) -> Seq<FrameView> {
    fs.map_values(|f: CanFrame| f@)
}

fn read_field(d: &[u8], o: u128, n: usize) -> (v: u64)
    requires
        n <= 8,
        o < 0x1_0000_0000_0000_0000_0000,
    ensures
        v as nat == field(d@, o as int, n as nat),
        (v as nat) < pow256(n as nat),
        n == 1 ==> v < 0x100,
        n == 2 ==> v < 0x1_0000,
        n == 4 ==> v < 0x1_0000_0000,
{
    proof {
        reveal_with_fuel(pow256, 5);
        lemma_pow256_mono(0, n as nat);
        lemma_pow256_mono(n as nat, 8);
        lemma_pow256_8();
    }
    if o + (n as u128) > d.len() as u128 {
        return 0;
    }
    let start = o as usize;
    let dl = d.len();
    let mut acc: u128 = 0;
    let mut i: usize = n;
    assert(d@.subrange(start + n, start + n) =~= Seq::<u8>::empty());
    while i > 0
        invariant
            0 <= i <= n <= 8,
            dl == d@.len(),
            start + n <= d@.len(),
            start == o,
            acc == le_value(d@.subrange(start + i, start + n)),
            acc < pow256((n - i) as nat),
            pow256(n as nat) <= 0x1_0000_0000_0000_0000,
        decreases i,
    {
        i = i - 1;
        assert(start + i < d@.len());
        let ghost sub = d@.subrange(start + i, start + n);
        assert(sub.drop_first() =~= d@.subrange(start + i + 1, start + n));
        assert(sub[0] == d@[start + i]);
        proof {
            lemma_pow256_mono((n - i - 1) as nat, n as nat);
        }
        assert(acc < 0x1_0000_0000_0000_0000);
        let b = d[start + i];
        acc = acc * 256 + b as u128;
    }
    assert(d@.subrange(start as int, start + n) == d@.subrange(o as int, o + n));
    acc as u64
}

fn read_bytes(d: &[u8], o: u128, n: usize) -> (v: Vec<u8>)
    requires
        o < 0x1_0000_0000_0000_0000_0000,
    ensures
        v@ == bytes_at(d@, o as int, n as nat),
{
    if o + (n as u128) <= d.len() as u128 {
        let start = o as usize;
        vstd::slice::slice_to_vec(vstd::slice::slice_subrange(d, start, start + n))
    } else {
        let mut v: Vec<u8> = Vec::new();
        push_zeros(&mut v, n);
        assert(v@ =~= zeros(n as nat));
        v
    }
}

fn can_message(d: &[u8], o: u128, ts: u64) -> (f: CanFrame)
    requires
        o < 0x1_0000_0000_0000_0000,
    ensures
        f@ == can_message_at(d@, o as int, ts),
{
    let ch = read_field(d, o, 2);
    let dlc = read_field(d, o + 2, 1);
    let fl = read_field(d, o + 3, 1);
    let raw = read_field(d, o + 4, 4);
    let data8 = read_bytes(d, o + 8, 8);
    let m: usize = if dlc < 8 {
        dlc as usize
    } else {
        8
    };
    let direction = if fl % 2 == 1 {
        Direction::Tx
    } else {
        Direction::Rx
    };
    CanFrame::new_can(
        time_from_u64(ts),
        (ch % 256) as u8,
        (raw % 0x2000_0000) as u32,
        raw >= 0x8000_0000,
        dlc as u8,
        vstd::slice::slice_subrange(data8.as_slice(), 0, m),
        direction,
    )
}

fn fd_message(d: &[u8], o: u128, ts: u64) -> (f: CanFrame)
    requires
        o < 0x1_0000_0000_0000_0000,
    ensures
        f@ == fd_message_at(d@, o as int, ts),
{
    let ch = read_field(d, o, 2);
    let dlc = read_field(d, o + 2, 1) as u8;
    let fl = read_field(d, o + 3, 1);
    let raw = read_field(d, o + 4, 4);
    let ff = read_field(d, o + 8, 4);
    let len = dlc_to_len(dlc);
    let data = read_bytes(d, o + 12, len);
    let direction = if fl % 2 == 1 {
        Direction::Tx
    } else {
        Direction::Rx
    };
    if ff % 2 == 1 {
        CanFrame::new_canfd(
            time_from_u64(ts),
            (ch % 256) as u8,
            (raw % 0x2000_0000) as u32,
            raw >= 0x8000_0000,
            (ff / 2) % 2 == 1,
            dlc,
            data.as_slice(),
            direction,
        )
    } else {
        CanFrame::new_can(
            time_from_u64(ts),
            (ch % 256) as u8,
            (raw % 0x2000_0000) as u32,
            raw >= 0x8000_0000,
            dlc,
            data.as_slice(),
            direction,
        )
    }
}

fn nested_frames_exec(n: &[u8]) -> (fs: Vec<CanFrame>)
    ensures
        frame_views(fs@) == nested_frames(n@, 0),
{
    let mut fs: Vec<CanFrame> = Vec::new();
    let len = n.len() as u128;
    let mut q: u128 = 0;
    assert(frame_views(fs@) =~= Seq::<FrameView>::empty());
    loop
        invariant
            len == n@.len(),
            len <= 0xFFFF_FFFF_FFFF_FFFF,
            q <= len + 0x1_0000_0000,
            frame_views(fs@) + nested_frames(n@, q as int) == nested_frames(n@, 0),
        ensures
            frame_views(fs@) == nested_frames(n@, 0),
        decreases remaining(n@.len(), q as int),
    {
        proof {
            reveal(nested_frames);
        }
        if q + 16 >= len {
            assert(frame_views(fs@) + Seq::<FrameView>::empty() =~= frame_views(fs@));
            break;
        }
        let sig = read_field(n, q, 4);
        if sig != BLF_OBJECT_SIGNATURE as u64 {
            assert(frame_views(fs@) + Seq::<FrameView>::empty() =~= frame_views(fs@));
            break;
        }
        let os = read_field(n, q + 8, 4);
        let ot = read_field(n, q + 12, 4);
        let ts = read_field(n, q + 16, 8);
        let h: u128 = if q + 32 < len {
            q + 32
        } else {
            len
        };
        let ghost before = frame_views(fs@);
        if ot == BLF_OBJTYPE_CAN_MESSAGE as u64 {
            let f = can_message(n, h, ts);
            fs.push(f);
            assert(frame_views(fs@) =~= before.push(f@));
            let ghost next = read_end(n@, h as int, 16);
            assert(nested_frames(n@, q as int) == seq![can_message_at(n@, h as int, ts)]
                + nested_frames(n@, next));
            assert(before + nested_frames(n@, q as int) =~= frame_views(fs@) + nested_frames(
                n@,
                next,
            ));
            q = if h + 16 <= len {
                h + 16
            } else {
                len
            };
        } else {
            let past: u128 = if os > 32 {
                h + os as u128 - 32
            } else {
                h
            };
            if ot == BLF_OBJTYPE_CAN_FD_MESSAGE as u64 {
                let f = fd_message(n, h, ts);
                fs.push(f);
                assert(frame_views(fs@) =~= before.push(f@));
                assert(nested_frames(n@, q as int) == seq![fd_message_at(n@, h as int, ts)]
                    + nested_frames(n@, past as int));
                assert(before + nested_frames(n@, q as int) =~= frame_views(fs@) + nested_frames(
                    n@,
                    past as int,
                ));
            }
            q = past;
        }
    }
    fs
}

/// The payload of the object at `p`: its frames, and where reading stands
/// after them.
#[verifier::spinoff_prover]
fn read_payload(data: &[u8], p: u128, ds: u128, ot: u64, size: u64, ts: u64) -> (r: (Vec<CanFrame>, u128))
    requires
        data@.len() <= 0xFFFF_FFFF_FFFF_FFFF,
        p < data@.len(),
        ds == min_pos(p + 32, data@.len() as int),
        ot == field(data@, p + 12, 4),
        size == payload_size(data@, p as int),
        ts == field(data@, p + 16, 8),
    ensures
        frame_views(r.0@) == object_frames(data@, p as int),
        r.1 == payload_end(data@, p as int),
{
    let len = data.len() as u128;
    let mut frames: Vec<CanFrame> = Vec::new();
    if ot == BLF_OBJTYPE_CAN_MESSAGE as u64 && size >= 16 {
        let f = can_message(data, ds, ts);
        frames.push(f);
        assert(frame_views(frames@) =~= seq![f@]);
        let pe = if ds + 16 <= len {
            ds + 16
        } else {
            len
        };
        (frames, pe)
    } else if ot == BLF_OBJTYPE_CAN_FD_MESSAGE as u64 && size >= 12 {
        let f = fd_message(data, ds, ts);
        frames.push(f);
        assert(frame_views(frames@) =~= seq![f@]);
        let dlc = read_field(data, ds + 2, 1) as u8;
        let n = dlc_to_len(dlc) as u128;
        let pe = if ds + 12 + n <= len {
            ds + 12 + n
        } else {
            len
        };
        (frames, pe)
    } else if ot == BLF_OBJTYPE_CONTAINER as u64 && size >= 8 {
        let cs = read_field(data, ds, 4);
        let compressed = read_bytes(data, ds + 8, cs as usize);
        let pe = if ds + 8 + (cs as u128) <= len {
            ds + 8 + (cs as u128)
        } else {
            len
        };
        match zlib_decompress(compressed.as_slice()) {
            Some(nested) => (nested_frames_exec(nested.as_slice()), pe),
            None => {
                assert(frame_views(frames@) =~= Seq::<FrameView>::empty());
                (frames, pe)
            },
        }
    } else {
        assert(frame_views(frames@) =~= Seq::<FrameView>::empty());
        (frames, ds)
    }
}

/// The frames of the object at `p`, and where the next one starts.
#[verifier::spinoff_prover]
fn read_object(data: &[u8], p: u128) -> (r: (Vec<CanFrame>, u128))
    requires
        data@.len() <= 0xFFFF_FFFF_FFFF_FFFF,
        object_at(data@, p as int),
        object_sizes_ok(data@, p as int),
    ensures
        frame_views(r.0@) == object_frames(data@, p as int),
        r.1 == next_object(data@, p as int),
        r.1 > p,
        r.1 <= data@.len() + 0x1_0000_0000,
{
    let len = data.len() as u128;
    let hs = read_field(data, p + 4, 2);
    let os = read_field(data, p + 8, 4);
    let ot = read_field(data, p + 12, 4);
    let ts = read_field(data, p + 16, 8);
    let ds: u128 = if p + 32 < len {
        p + 32
    } else {
        len
    };
    let size = os - hs - 16;
    let (frames, pe) = read_payload(data, p, ds, ot, size, ts);
    let end = ds + (os as u128) - 32;
    let aligned: u128 = if end % 4 == 0 {
        end
    } else {
        end + 4 - end % 4
    };
    let next = if aligned > pe {
        aligned
    } else {
        pe
    };
    proof {
        lemma_next_object_advances(data@, p as int);
    }
    (frames, next)
}

/// Reads the frames of a BLF log. A log shorter than its file header is
/// an error.
pub fn read_blf(data: &[u8]) -> (r: Result<Vec<CanFrame>, String>)
    requires
        blf_sizes_ok(data@),
    ensures
        match r {
            Ok(frames) => data@.len() >= BLF_HEADER_SIZE && frame_views(frames@) == blf_frames(data@),
            Err(e) => data@.len() < BLF_HEADER_SIZE && e@ == "BLF file too small"@,
        },
{
    if data.len() < 144 {
        return Err("BLF file too small".to_owned());
    }
    let len = data.len() as u128;
    let mut frames: Vec<CanFrame> = Vec::new();
    let mut p: u128 = 144;
    assert(frame_views(frames@) =~= Seq::<FrameView>::empty());
    loop
        invariant
            len == data@.len(),
            len <= 0xFFFF_FFFF_FFFF_FFFF,
            144 <= p <= len + 0x1_0000_0000,
            blf_sizes_ok_from(data@, p as int),
            frame_views(frames@) + blf_frames_from(data@, p as int) == blf_frames(data@),
        ensures
            frame_views(frames@) == blf_frames(data@),
        decreases remaining(data@.len(), p as int),
    {
        proof {
            reveal(blf_frames_from);
        }
        if p + 16 >= len {
            assert(frame_views(frames@) + Seq::<FrameView>::empty() =~= frame_views(frames@));
            break;
        }
        let sig = read_field(data, p, 4);
        if sig != BLF_OBJECT_SIGNATURE as u64 {
            assert(frame_views(frames@) + Seq::<FrameView>::empty() =~= frame_views(frames@));
            break;
        }
        let ghost before = frame_views(frames@);
        let (mut more, next) = read_object(data, p);
        let ghost added = frame_views(more@);
        frames.append(&mut more);
        assert(frame_views(frames@) =~= before + added);
        assert(before + blf_frames_from(data@, p as int) =~= frame_views(frames@) + blf_frames_from(
            data@,
            next as int,
        ));
        p = next;
    }
    Ok(frames)
}

/// Where the object after the one at `p` starts.
#[verifier::spinoff_prover]
fn next_object_exec(data: &[u8], p: u128) -> (next: u128)
    requires
        data@.len() <= 0xFFFF_FFFF_FFFF_FFFF,
        object_at(data@, p as int),
        object_sizes_ok(data@, p as int),
    ensures
        next == next_object(data@, p as int),
        next > p,
        next <= data@.len() + 0x1_0000_0000,
{
    let len = data.len() as u128;
    let hs = read_field(data, p + 4, 2);
    let os = read_field(data, p + 8, 4);
    let ot = read_field(data, p + 12, 4);
    let ds: u128 = if p + 32 < len {
        p + 32
    } else {
        len
    };
    let size = os - hs - 16;
    let pe: u128 = if ot == BLF_OBJTYPE_CAN_MESSAGE as u64 && size >= 16 {
        if ds + 16 <= len {
            ds + 16
        } else {
            len
        }
    } else if ot == BLF_OBJTYPE_CAN_FD_MESSAGE as u64 && size >= 12 {
        let dlc = read_field(data, ds + 2, 1) as u8;
        let n = dlc_to_len(dlc) as u128;
        if ds + 12 + n <= len {
            ds + 12 + n
        } else {
            len
        }
    } else if ot == BLF_OBJTYPE_CONTAINER as u64 && size >= 8 {
        let cs = read_field(data, ds, 4) as u128;
        if ds + 8 + cs <= len {
            ds + 8 + cs
        } else {
            len
        }
    } else {
        ds
    };
    let end = ds + (os as u128) - 32;
    let aligned: u128 = if end % 4 == 0 {
        end
    } else {
        end + 4 - end % 4
    };
    proof {
        lemma_next_object_advances(data@, p as int);
    }
    if aligned > pe {
        aligned
    } else {
        pe
    }
}

/// Whether every object of a BLF log has consistent sizes, as reading it
/// asks.
pub fn blf_sizes_valid(data: &[u8]) -> (b: bool)
    ensures
        b == blf_sizes_ok(data@),
{
    let len = data.len() as u128;
    let mut p: u128 = 144;
    while p + 16 < len
        invariant
            len == data@.len(),
            len <= 0xFFFF_FFFF_FFFF_FFFF,
            144 <= p <= len + 0x1_0000_0000,
            blf_sizes_ok(data@) == blf_sizes_ok_from(data@, p as int),
        decreases remaining(data@.len(), p as int),
    {
        let sig = read_field(data, p, 4);
        if sig != BLF_OBJECT_SIGNATURE as u64 {
            return true;
        }
        let hs = read_field(data, p + 4, 2);
        let os = read_field(data, p + 8, 4);
        if !(os >= hs + 16 && os >= 32) {
            return false;
        }
        p = next_object_exec(data, p);
    }
    true
}

} // verus!
