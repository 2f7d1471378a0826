//! What a BLF log written by `BlfWriter` reads back as.
use vstd::prelude::*;

use crate::can::frame::{classic_frame, fd_frame, ticks_of, time_from_ticks, Direction, FrameView};
use crate::log::blf::{
    align4, blf_frames, blf_frames_from, blf_log_body, bytes_at, can_fields, can_message_at,
    can_object, container_fits, container_object, direction_flag, emptied, field,
    fd_data_len, fd_fields, fd_flags, fd_message_at, fd_object, fd_payload, fd_size,
    flag_direction, frame_object, fresh_writer, lemma_frame_object_len, lemma_le_len,
    lemma_le_roundtrip, lemma_next_object_advances, le, le_value, min_pos, nested_frames,
    next_object, object_at, object_frames, object_header, object_sizes_ok, payload_end,
    payload_size, pow256, raw_extended, raw_id, read_end, recorded, write_all, zlib_deflate,
    zlib_inflate, zlib_roundtrips, BLF_BUFFER_THRESHOLD, BLF_HEADER_SIZE, BLF_OBJECT_SIGNATURE,
    BLF_OBJTYPE_CAN_FD_MESSAGE, BLF_OBJTYPE_CAN_MESSAGE, BLF_OBJTYPE_CONTAINER,
};
use crate::vector::types::dlc_len;
use crate::vector::channel::{padded, wire_id, zeros};

verus! {

/// A frame that a BLF log carries unchanged: its time is not before zero,
/// its identifier fits in 29 bits, it is no remote frame and has no error state indicator; a classic
/// frame has no bit rate switch and exactly as many data bytes as its code
/// says (at most eight), a CAN FD frame exactly the length its code stands
/// for.
pub open spec fn blf_keeps(f: FrameView) -> bool {
    &&& f.timestamp_ns >= 0
    &&& !f.is_esi && !f.is_rtr
    &&& f.id < 0x2000_0000
    &&& if f.is_fd {
        f.data.len() == dlc_len(f.dlc)
    } else {
        &&& !f.is_brs
        &&& f.data.len() == (if f.dlc < 8 {
            f.dlc as nat
        } else {
            8
        })
    }
}

/// The objects of a sequence of frames, one after another.
pub open spec fn frame_objects(gs: Seq<FrameView>) -> Seq<u8>
    decreases gs.len(),
{
    if gs.len() == 0 {
        seq![]
    } else {
        frame_objects(gs.drop_last()) + frame_object(gs.last())
    }
}

proof fn lemma_can_object_layout(g: FrameView)
    ensures
        can_object(g).len() == 48,
        can_object(g).subrange(0, 4) == le(BLF_OBJECT_SIGNATURE as nat, 4),
        can_object(g).subrange(8, 12) == le(48, 4),
        can_object(g).subrange(12, 16) == le(BLF_OBJTYPE_CAN_MESSAGE as nat, 4),
        can_object(g).subrange(16, 24) == le(ticks_of(g.timestamp_ns) as nat, 8),
        can_object(g).subrange(32, 34) == le(g.channel as nat, 2),
        can_object(g).subrange(34, 35) == seq![g.dlc],
        can_object(g).subrange(35, 36) == seq![direction_flag(g.direction)],
        can_object(g).subrange(36, 40) == le(wire_id(g.id, g.is_extended) as nat, 4),
        can_object(g).subrange(40, 48) == padded(g.data, 8),
{
    lemma_le_len(BLF_OBJECT_SIGNATURE as nat, 4);
    lemma_le_len(16, 2);
    lemma_le_len(1, 2);
    lemma_le_len(48, 4);
    lemma_le_len(BLF_OBJTYPE_CAN_MESSAGE as nat, 4);
    lemma_le_len(ticks_of(g.timestamp_ns) as nat, 8);
    lemma_le_len(0, 8);
    lemma_le_len(g.channel as nat, 2);
    lemma_le_len(wire_id(g.id, g.is_extended) as nat, 4);
    let o = can_object(g);
    let h = object_header(48, BLF_OBJTYPE_CAN_MESSAGE as nat, ticks_of(g.timestamp_ns) as nat);
    let f = can_fields(g);
    let pd = padded(g.data, 8);
    assert(pd.len() == 8);
    assert(h.len() == 32);
    assert(f.len() == 8);
    assert(o == h + f + pd);
    assert(o.subrange(0, 4) =~= le(BLF_OBJECT_SIGNATURE as nat, 4));
    assert(o.subrange(8, 12) =~= le(48, 4));
    assert(o.subrange(12, 16) =~= le(BLF_OBJTYPE_CAN_MESSAGE as nat, 4));
    assert(o.subrange(16, 24) =~= le(ticks_of(g.timestamp_ns) as nat, 8));
    assert(o.subrange(32, 34) =~= le(g.channel as nat, 2));
    assert(o.subrange(34, 35) =~= seq![g.dlc]);
    assert(o.subrange(35, 36) =~= seq![direction_flag(g.direction)]);
    assert(o.subrange(36, 40) =~= le(wire_id(g.id, g.is_extended) as nat, 4));
    assert(o.subrange(40, 48) =~= pd);
}

proof fn lemma_pow256_values()
    ensures
        pow256(1) == 0x100,
        pow256(2) == 0x1_0000,
        pow256(4) == 0x1_0000_0000,
        pow256(8) == 0x1_0000_0000_0000_0000,
{
    reveal_with_fuel(pow256, 9);
}

proof fn lemma_wire_id_read(id: u32, ext: bool)
    requires
        id < 0x2000_0000,
    ensures
        raw_id(wire_id(id, ext) as nat) == id,
        raw_extended(wire_id(id, ext) as nat) == ext,
{
    if ext {
        assert(id | 0x8000_0000u32 == id + 0x8000_0000u32) by (bit_vector)
            requires
                id < 0x2000_0000u32,
        ;
    }
}

proof fn lemma_le_value_single(b: u8)
    ensures
        le_value(seq![b]) == b,
{
    let s = seq![b];
    assert(s.drop_first() =~= Seq::<u8>::empty());
    assert(le_value(s.drop_first()) == 0);
}

/// The classic CAN object of a kept frame reads back as that frame.
proof fn lemma_can_object_read(n: Seq<u8>, q: int, g: FrameView)
    requires
        0 <= q,
        q + 48 <= n.len(),
        n.subrange(q, q + 48) == can_object(g),
        blf_keeps(g),
        !g.is_fd,
    ensures
        field(n, q, 4) == BLF_OBJECT_SIGNATURE,
        field(n, q + 8, 4) == 48,
        field(n, q + 12, 4) == BLF_OBJTYPE_CAN_MESSAGE,
        field(n, q + 16, 8) == ticks_of(g.timestamp_ns),
        can_message_at(n, q + 32, ticks_of(g.timestamp_ns)) == g,
{
    lemma_can_object_layout(g);
    lemma_pow256_values();
    let o = can_object(g);
    assert(n.subrange(q, q + 4) =~= o.subrange(0, 4));
    assert(n.subrange(q + 8, q + 12) =~= o.subrange(8, 12));
    assert(n.subrange(q + 12, q + 16) =~= o.subrange(12, 16));
    assert(n.subrange(q + 16, q + 24) =~= o.subrange(16, 24));
    assert(n.subrange(q + 32, q + 34) =~= o.subrange(32, 34));
    assert(n.subrange(q + 34, q + 35) =~= o.subrange(34, 35));
    assert(n.subrange(q + 35, q + 36) =~= o.subrange(35, 36));
    assert(n.subrange(q + 36, q + 40) =~= o.subrange(36, 40));
    assert(n.subrange(q + 40, q + 48) =~= o.subrange(40, 48));
    lemma_le_roundtrip(BLF_OBJECT_SIGNATURE as nat, 4);
    lemma_le_roundtrip(48, 4);
    lemma_le_roundtrip(BLF_OBJTYPE_CAN_MESSAGE as nat, 4);
    lemma_le_roundtrip(ticks_of(g.timestamp_ns) as nat, 8);
    lemma_le_roundtrip(g.channel as nat, 2);
    lemma_le_roundtrip(wire_id(g.id, g.is_extended) as nat, 4);
    lemma_le_value_single(g.dlc);
    let fl = direction_flag(g.direction);
    lemma_le_value_single(fl);
    lemma_wire_id_read(g.id, g.is_extended);
    assert(flag_direction(fl as nat) == g.direction);
    let m = can_message_at(n, q + 32, ticks_of(g.timestamp_ns));
    assert(bytes_at(n, q + 40, 8).take(g.data.len() as int) =~= g.data);
    assert(m == g);
}

proof fn lemma_fd_object_layout(g: FrameView)
    requires
        g.data.len() <= 64,
    ensures
        fd_object(g).len() == fd_size(g),
        44 + g.data.len() <= fd_size(g) <= 47 + g.data.len(),
        fd_object(g).subrange(0, 4) == le(BLF_OBJECT_SIGNATURE as nat, 4),
        fd_object(g).subrange(8, 12) == le(fd_size(g), 4),
        fd_object(g).subrange(12, 16) == le(BLF_OBJTYPE_CAN_FD_MESSAGE as nat, 4),
        fd_object(g).subrange(16, 24) == le(ticks_of(g.timestamp_ns) as nat, 8),
        fd_object(g).subrange(32, 34) == le(g.channel as nat, 2),
        fd_object(g).subrange(34, 35) == seq![g.dlc],
        fd_object(g).subrange(35, 36) == seq![direction_flag(g.direction)],
        fd_object(g).subrange(36, 40) == le(wire_id(g.id, g.is_extended) as nat, 4),
        fd_object(g).subrange(40, 44) == le(fd_flags(g), 4),
        fd_object(g).subrange(44, 44 + g.data.len() as int) == g.data,
{
    let size = fd_size(g);
    lemma_le_len(BLF_OBJECT_SIGNATURE as nat, 4);
    lemma_le_len(16, 2);
    lemma_le_len(1, 2);
    lemma_le_len(size, 4);
    lemma_le_len(BLF_OBJTYPE_CAN_FD_MESSAGE as nat, 4);
    lemma_le_len(ticks_of(g.timestamp_ns) as nat, 8);
    lemma_le_len(0, 8);
    lemma_le_len(g.channel as nat, 2);
    lemma_le_len(wire_id(g.id, g.is_extended) as nat, 4);
    lemma_le_len(fd_flags(g), 4);
    let o = fd_object(g);
    let h = object_header(size, BLF_OBJTYPE_CAN_FD_MESSAGE as nat, ticks_of(g.timestamp_ns) as nat);
    let f = fd_fields(g);
    let pl = fd_payload(g);
    assert(fd_data_len(g) == g.data.len());
    assert(h.len() == 32);
    assert(f.len() == 12);
    assert(g.data.take(g.data.len() as int) =~= g.data);
    assert(pl.len() == size - 44);
    assert(o == h + f + pl);
    assert(o.subrange(0, 4) =~= le(BLF_OBJECT_SIGNATURE as nat, 4));
    assert(o.subrange(8, 12) =~= le(size, 4));
    assert(o.subrange(12, 16) =~= le(BLF_OBJTYPE_CAN_FD_MESSAGE as nat, 4));
    assert(o.subrange(16, 24) =~= le(ticks_of(g.timestamp_ns) as nat, 8));
    assert(o.subrange(32, 34) =~= le(g.channel as nat, 2));
    assert(o.subrange(34, 35) =~= seq![g.dlc]);
    assert(o.subrange(35, 36) =~= seq![direction_flag(g.direction)]);
    assert(o.subrange(36, 40) =~= le(wire_id(g.id, g.is_extended) as nat, 4));
    assert(o.subrange(40, 44) =~= le(fd_flags(g), 4));
    assert(o.subrange(44, 44 + g.data.len() as int) =~= g.data);
}

proof fn lemma_dlc_len_bound(dlc: u8)
    ensures
        dlc_len(dlc) <= 64,
{
}

/// The CAN FD object of a kept frame reads back as that frame.
#[verifier::spinoff_prover]
#[verifier::rlimit(80)]
proof fn lemma_fd_object_read(n: Seq<u8>, q: int, g: FrameView)
    requires
        0 <= q,
        q + fd_size(g) <= n.len(),
        n.subrange(q, q + fd_size(g)) == fd_object(g),
        blf_keeps(g),
        g.is_fd,
    ensures
        fd_size(g) > 32,
        field(n, q, 4) == BLF_OBJECT_SIGNATURE,
        field(n, q + 8, 4) == fd_size(g),
        field(n, q + 12, 4) == BLF_OBJTYPE_CAN_FD_MESSAGE,
        field(n, q + 16, 8) == ticks_of(g.timestamp_ns),
        fd_message_at(n, q + 32, ticks_of(g.timestamp_ns)) == g,
{
    lemma_pow256_values();
    lemma_dlc_len_bound(g.dlc);
    lemma_fd_object_layout(g);
    let o = fd_object(g);
    let size = fd_size(g);
    assert(n.subrange(q, q + 4) =~= o.subrange(0, 4));
    assert(n.subrange(q + 8, q + 12) =~= o.subrange(8, 12));
    assert(n.subrange(q + 12, q + 16) =~= o.subrange(12, 16));
    assert(n.subrange(q + 16, q + 24) =~= o.subrange(16, 24));
    assert(n.subrange(q + 32, q + 34) =~= o.subrange(32, 34));
    assert(n.subrange(q + 34, q + 35) =~= o.subrange(34, 35));
    assert(n.subrange(q + 35, q + 36) =~= o.subrange(35, 36));
    assert(n.subrange(q + 36, q + 40) =~= o.subrange(36, 40));
    assert(n.subrange(q + 40, q + 44) =~= o.subrange(40, 44));
    assert(n.subrange(q + 44, q + 44 + g.data.len()) =~= o.subrange(44, 44 + g.data.len() as int));
    lemma_le_roundtrip(BLF_OBJECT_SIGNATURE as nat, 4);
    lemma_le_roundtrip(size, 4);
    lemma_le_roundtrip(BLF_OBJTYPE_CAN_FD_MESSAGE as nat, 4);
    lemma_le_roundtrip(ticks_of(g.timestamp_ns) as nat, 8);
    lemma_le_roundtrip(g.channel as nat, 2);
    lemma_le_roundtrip(wire_id(g.id, g.is_extended) as nat, 4);
    lemma_le_roundtrip(fd_flags(g), 4);
    lemma_le_value_single(g.dlc);
    let fl = direction_flag(g.direction);
    lemma_le_value_single(fl);
    lemma_wire_id_read(g.id, g.is_extended);
    assert(flag_direction(fl as nat) == g.direction);
    assert(field(n, q + 34, 1) == g.dlc);
    let ff = fd_flags(g);
    assert(ff % 2 == 1);
    assert(((ff / 2) % 2 == 1) == g.is_brs);
    assert(bytes_at(n, q + 44, dlc_len(g.dlc)) == g.data);
    let m = fd_message_at(n, q + 32, ticks_of(g.timestamp_ns));
    assert(m == g);
}

/// A kept frame's object in container data reads back as that frame, and
/// reading goes on right after it.
proof fn lemma_object_step(n: Seq<u8>, q: int, g: FrameView)
    requires
        0 <= q,
        q + frame_object(g).len() <= n.len(),
        n.subrange(q, q + frame_object(g).len()) == frame_object(g),
        blf_keeps(g),
    ensures
        nested_frames(n, q) == seq![g] + nested_frames(n, q + frame_object(g).len()),
{
    reveal(nested_frames);
    lemma_frame_object_len(g);
    if g.is_fd {
        lemma_fd_object_read(n, q, g);
        assert(min_pos(q + 32, n.len() as int) == q + 32);
    } else {
        lemma_can_object_read(n, q, g);
        assert(min_pos(q + 32, n.len() as int) == q + 32);
        assert(read_end(n, q + 32, 16) == q + 48);
    }
}

proof fn lemma_frame_objects_concat(a: Seq<FrameView>, b: Seq<FrameView>)
    ensures
        frame_objects(a + b) == frame_objects(a) + frame_objects(b),
    decreases b.len(),
{
    if b.len() == 0 {
        assert(a + b =~= a);
        assert(frame_objects(a) + frame_objects(b) =~= frame_objects(a));
    } else {
        assert((a + b).drop_last() =~= a + b.drop_last());
        assert((a + b).last() == b.last());
        lemma_frame_objects_concat(a, b.drop_last());
        assert(frame_objects(a) + frame_objects(b) =~= frame_objects(a) + frame_objects(
            b.drop_last(),
        ) + frame_object(b.last()));
    }
}

/// Container data that ends with the objects of kept frames, from `q` on,
/// reads back as those frames.
proof fn lemma_nested_read(n: Seq<u8>, q: int, gs: Seq<FrameView>)
    requires
        0 <= q,
        n.len() == q + frame_objects(gs).len(),
        n.subrange(q, n.len() as int) == frame_objects(gs),
        forall|i: int| 0 <= i < gs.len() ==> blf_keeps(#[trigger] gs[i]),
    ensures
        nested_frames(n, q) == gs,
    decreases gs.len(),
{
    reveal(nested_frames);
    if gs.len() == 0 {
        assert(nested_frames(n, q) =~= Seq::<FrameView>::empty());
        assert(gs =~= Seq::<FrameView>::empty());
    } else {
        let g = gs[0];
        let rest = gs.drop_first();
        assert(gs =~= seq![g] + rest);
        lemma_frame_objects_concat(seq![g], rest);
        assert(seq![g].drop_last() =~= Seq::<FrameView>::empty());
        assert(frame_objects(Seq::<FrameView>::empty()) =~= Seq::<u8>::empty());
        assert(frame_objects(seq![g]) =~= frame_object(g));
        let len = frame_object(g).len() as int;
        assert(frame_objects(gs) == frame_object(g) + frame_objects(rest));
        assert(n.subrange(q, q + len) =~= frame_objects(gs).subrange(0, len));
        assert(frame_objects(gs).subrange(0, len) =~= frame_object(g));
        assert(blf_keeps(gs[0]));
        lemma_object_step(n, q, g);
        assert(n.subrange(q + len, n.len() as int) =~= frame_objects(gs).subrange(
            len,
            frame_objects(gs).len() as int,
        ));
        assert(frame_objects(gs).subrange(len, frame_objects(gs).len() as int) =~= frame_objects(
            rest,
        ));
        assert forall|i: int| 0 <= i < rest.len() implies blf_keeps(#[trigger] rest[i]) by {
            assert(rest[i] == gs[i + 1]);
        }
        lemma_nested_read(n, q + len, rest);
    }
}

proof fn lemma_container_layout(c: Seq<u8>, ulen: nat)
    requires
        c.len() + 43 <= u32::MAX,
    ensures
        container_object(c, ulen).len() == align4(40 + c.len() as int),
        align4(40 + c.len() as int) % 4 == 0,
        40 + c.len() <= align4(40 + c.len() as int) <= 43 + c.len(),
        container_object(c, ulen).subrange(0, 4) == le(BLF_OBJECT_SIGNATURE as nat, 4),
        container_object(c, ulen).subrange(4, 6) == le(16, 2),
        container_object(c, ulen).subrange(8, 12) == le(align4(40 + c.len() as int) as nat, 4),
        container_object(c, ulen).subrange(12, 16) == le(BLF_OBJTYPE_CONTAINER as nat, 4),
        container_object(c, ulen).subrange(32, 36) == le(c.len(), 4),
        container_object(c, ulen).subrange(40, 40 + c.len() as int) == c,
{
    let size = align4(40 + c.len() as int) as nat;
    lemma_le_len(BLF_OBJECT_SIGNATURE as nat, 4);
    lemma_le_len(16, 2);
    lemma_le_len(1, 2);
    lemma_le_len(size, 4);
    lemma_le_len(BLF_OBJTYPE_CONTAINER as nat, 4);
    lemma_le_len(0, 8);
    lemma_le_len(c.len(), 4);
    lemma_le_len(ulen, 4);
    let o = container_object(c, ulen);
    let h = object_header(size, BLF_OBJTYPE_CONTAINER as nat, 0);
    assert(h.len() == 32);
    let rest = le(c.len(), 4) + le(ulen, 4) + c + zeros((size - (40 + c.len())) as nat);
    assert(o == h + rest);
    assert(o.subrange(0, 4) =~= le(BLF_OBJECT_SIGNATURE as nat, 4));
    assert(o.subrange(4, 6) =~= le(16, 2));
    assert(o.subrange(8, 12) =~= le(size, 4));
    assert(o.subrange(12, 16) =~= le(BLF_OBJTYPE_CONTAINER as nat, 4));
    assert(o.subrange(32, 36) =~= le(c.len(), 4));
    assert(o.subrange(40, 40 + c.len() as int) =~= c);
}

/// A container whose data decompresses to `b`, at position `p`: its frames
/// are those in `b`, and the next object follows it.
#[verifier::spinoff_prover]
#[verifier::rlimit(60)]
proof fn lemma_container_read(d: Seq<u8>, p: int, c: Seq<u8>, ulen: nat, b: Seq<u8>)
    requires
        0 <= p,
        p % 4 == 0,
        c.len() + 43 <= u32::MAX,
        p + container_object(c, ulen).len() <= d.len(),
        d.subrange(p, p + container_object(c, ulen).len()) == container_object(c, ulen),
        zlib_inflate(c) == Some(b),
    ensures
        blf_frames_from(d, p) == nested_frames(b, 0) + blf_frames_from(
            d,
            p + container_object(c, ulen).len(),
        ),
{
    reveal(blf_frames_from);
    let o = container_object(c, ulen);
    lemma_container_layout(c, ulen);
    lemma_pow256_values();
    let size = align4(40 + c.len() as int);
    assert(d.subrange(p, p + 4) =~= o.subrange(0, 4));
    assert(d.subrange(p + 4, p + 6) =~= o.subrange(4, 6));
    assert(d.subrange(p + 8, p + 12) =~= o.subrange(8, 12));
    assert(d.subrange(p + 12, p + 16) =~= o.subrange(12, 16));
    assert(d.subrange(p + 32, p + 36) =~= o.subrange(32, 36));
    assert(d.subrange(p + 40, p + 40 + c.len() as int) =~= o.subrange(40, 40 + c.len() as int));
    lemma_le_roundtrip(BLF_OBJECT_SIGNATURE as nat, 4);
    lemma_le_roundtrip(16, 2);
    lemma_le_roundtrip(size as nat, 4);
    lemma_le_roundtrip(BLF_OBJTYPE_CONTAINER as nat, 4);
    lemma_le_roundtrip(c.len(), 4);
    assert(field(d, p, 4) == BLF_OBJECT_SIGNATURE);
    assert(field(d, p + 4, 2) == 16);
    assert(field(d, p + 8, 4) == size);
    assert(field(d, p + 12, 4) == BLF_OBJTYPE_CONTAINER);
    assert(object_at(d, p));
    assert(object_sizes_ok(d, p));
    let ds = min_pos(p + 32, d.len() as int);
    assert(ds == p + 32);
    assert(field(d, ds, 4) == c.len());
    assert(bytes_at(d, ds + 8, c.len()) == c);
    assert(payload_size(d, p) == size - 32);
    assert(object_frames(d, p) == nested_frames(b, 0));
    assert(payload_end(d, p) == p + 40 + c.len());
    assert((p + size) % 4 == 0);
    assert(align4(ds + size - 32) == p + size);
    assert(next_object(d, p) == p + size);
    lemma_next_object_advances(d, p);
}

proof fn lemma_frame_objects_push(gs: Seq<FrameView>, f: FrameView)
    ensures
        frame_objects(gs.push(f)) == frame_objects(gs) + frame_object(f),
{
    assert(gs.push(f).drop_last() =~= gs);
}

/// How many of the frames written last wait in the writer's buffer.
spec fn pending(fs: Seq<FrameView>) -> nat
    decreases fs.len(),
{
    if fs.len() == 0 {
        0
    } else {
        match write_all(fresh_writer(), fs.drop_last()) {
            Some((w1, _)) => if recorded(w1, fs.last()).buffer.len() < BLF_BUFFER_THRESHOLD {
                pending(fs.drop_last()) + 1
            } else {
                0
            },
            None => 0,
        }
    }
}

/// The buffers the writer compresses into containers while it writes
/// `fs`, in order.
pub open spec fn written_blocks(fs: Seq<FrameView>) -> Seq<Seq<u8>>
    decreases fs.len(),
{
    if fs.len() == 0 {
        seq![]
    } else {
        match write_all(fresh_writer(), fs.drop_last()) {
            Some((w1, _)) => {
                let a = recorded(w1, fs.last());
                written_blocks(fs.drop_last()) + if a.buffer.len() >= BLF_BUFFER_THRESHOLD {
                    seq![a.buffer]
                } else {
                    seq![]
                }
            },
            None => written_blocks(fs.drop_last()),
        }
    }
}

/// The buffers the writer compresses while it writes `fs` and is
/// finalized, in order.
pub open spec fn log_blocks(fs: Seq<FrameView>) -> Seq<Seq<u8>> {
    written_blocks(fs) + match write_all(fresh_writer(), fs) {
        Some((w, _)) => if w.buffer.len() > 0 {
            seq![w.buffer]
        } else {
            seq![]
        },
        None => seq![],
    }
}

/// The frames written so far that wait in the writer's buffer: their
/// objects are its contents.
proof fn lemma_write_all_state(fs: Seq<FrameView>)
    requires
        forall|i: int| 0 <= i < fs.len() ==> blf_keeps(#[trigger] fs[i]),
        write_all(fresh_writer(), fs) is Some,
    ensures
        ({
            let (w, body) = write_all(fresh_writer(), fs).unwrap();
            let m = pending(fs);
            &&& w.buffer_threshold == BLF_BUFFER_THRESHOLD
            &&& w.buffer.len() < BLF_BUFFER_THRESHOLD
            &&& m <= fs.len()
            &&& w.buffer == frame_objects(fs.subrange(fs.len() - m, fs.len() as int))
            &&& (m > 0 ==> w.buffer.len() > 0)
            &&& body.len() % 4 == 0
        }),
    decreases fs.len(),
{
    if fs.len() == 0 {
        assert(fs.subrange(0, 0) =~= Seq::<FrameView>::empty());
    } else {
        let init = fs.drop_last();
        let f = fs.last();
        assert forall|i: int| 0 <= i < init.len() implies blf_keeps(#[trigger] init[i]) by {
            assert(init[i] == fs[i]);
        }
        lemma_write_all_state(init);
        let (w1, b1) = write_all(fresh_writer(), init).unwrap();
        let n = init.len() as int;
        let m1 = pending(init);
        let a = recorded(w1, f);
        assert(blf_keeps(fs[n]));
        lemma_frame_object_len(f);
        let pend = fs.subrange(n - m1, n + 1);
        assert(pend =~= init.subrange(n - m1, n).push(f));
        lemma_frame_objects_push(init.subrange(n - m1, n), f);
        assert(a.buffer == frame_objects(pend));
        if a.buffer.len() < a.buffer_threshold {
            assert(write_all(fresh_writer(), fs) == Some((a, b1)));
            assert(pending(fs) == m1 + 1);
        } else {
            let c = zlib_deflate(a.buffer);
            let cont = container_object(c, a.buffer.len());
            assert(container_fits(a.buffer));
            assert(write_all(fresh_writer(), fs) == Some((emptied(a), b1 + cont)));
            assert(pending(fs) == 0);
            lemma_container_layout(c, a.buffer.len());
            assert(fs.subrange(n + 1, n + 1) =~= Seq::<FrameView>::empty());
        }
    }
}

/// Where the bytes appended so far stand in a file at a position that is
/// a multiple of 4, they read back as the frames written so far but the
/// pending ones.
#[verifier::spinoff_prover]
#[verifier::rlimit(60)]
proof fn lemma_write_all_read(fs: Seq<FrameView>, d: Seq<u8>, p: int)
    requires
        forall|i: int| 0 <= i < fs.len() ==> blf_keeps(#[trigger] fs[i]),
        write_all(fresh_writer(), fs) is Some,
        forall|i: int| 0 <= i < written_blocks(fs).len() ==> zlib_roundtrips(
            #[trigger] written_blocks(fs)[i],
        ),
        0 <= p,
        p % 4 == 0,
        p + write_all(fresh_writer(), fs).unwrap().1.len() <= d.len(),
        d.subrange(p, p + write_all(fresh_writer(), fs).unwrap().1.len()) == write_all(
            fresh_writer(),
            fs,
        ).unwrap().1,
    ensures
        ({
            let (w, body) = write_all(fresh_writer(), fs).unwrap();
            blf_frames_from(d, p) == fs.take(fs.len() - pending(fs)) + blf_frames_from(
                d,
                p + body.len(),
            )
        }),
    decreases fs.len(),
{
    lemma_write_all_state(fs);
    if fs.len() == 0 {
        assert(fs.take(0) + blf_frames_from(d, p) =~= blf_frames_from(d, p));
    } else {
        let init = fs.drop_last();
        let f = fs.last();
        assert forall|i: int| 0 <= i < init.len() implies blf_keeps(#[trigger] init[i]) by {
            assert(init[i] == fs[i]);
        }
        lemma_write_all_state(init);
        let (w1, b1) = write_all(fresh_writer(), init).unwrap();
        let n = init.len() as int;
        let m1 = pending(init);
        let a = recorded(w1, f);
        assert(blf_keeps(fs[n]));
        lemma_frame_object_len(f);
        let pend = fs.subrange(n - m1, n + 1);
        assert(pend =~= init.subrange(n - m1, n).push(f));
        lemma_frame_objects_push(init.subrange(n - m1, n), f);
        assert(a.buffer == frame_objects(pend));
        assert(fs.take(n - m1) =~= init.take(n - m1));
        assert forall|i: int| 0 <= i < written_blocks(init).len() implies zlib_roundtrips(
            #[trigger] written_blocks(init)[i],
        ) by {
            assert(written_blocks(init)[i] == written_blocks(fs)[i]);
        }
        if a.buffer.len() < a.buffer_threshold {
            assert(write_all(fresh_writer(), fs) == Some((a, b1)));
            lemma_write_all_read(init, d, p);
            assert(pending(fs) == m1 + 1);
        } else {
            let c = zlib_deflate(a.buffer);
            let k = written_blocks(init).len() as int;
            assert(written_blocks(fs)[k] == a.buffer);
            assert(zlib_roundtrips(written_blocks(fs)[k]));
            assert(zlib_inflate(zlib_deflate(a.buffer)) == Some(a.buffer));
            let cont = container_object(c, a.buffer.len());
            assert(container_fits(a.buffer));
            assert(write_all(fresh_writer(), fs) == Some((emptied(a), b1 + cont)));
            assert(pending(fs) == 0);
            lemma_container_layout(c, a.buffer.len());
            let body = b1 + cont;
            assert(d.subrange(p, p + b1.len()) =~= body.subrange(0, b1.len() as int));
            assert(body.subrange(0, b1.len() as int) =~= b1);
            lemma_write_all_read(init, d, p);
            let q = p + b1.len();
            assert(d.subrange(q, q + cont.len()) =~= body.subrange(
                b1.len() as int,
                body.len() as int,
            ));
            assert(body.subrange(b1.len() as int, body.len() as int) =~= cont);
            lemma_container_read(d, q, c, a.buffer.len(), a.buffer);
            assert forall|i: int| 0 <= i < pend.len() implies blf_keeps(#[trigger] pend[i]) by {
                assert(pend[i] == fs[n - m1 + i]);
            }
            assert(a.buffer.subrange(0, a.buffer.len() as int) =~= a.buffer);
            lemma_nested_read(a.buffer, 0, pend);
            assert(init.take(n - m1) + pend =~= fs.take(fs.len() as int));
            assert(fs.take(fs.len() - 0) =~= fs.take(fs.len() as int));
        }
    }
}

proof fn lemma_frames_at_end(d: Seq<u8>)
    ensures
        blf_frames_from(d, d.len() as int) == Seq::<FrameView>::empty(),
{
    reveal(blf_frames_from);
}

/// A log written by `BlfWriter` (any 144 bytes of file header, then the
/// bytes its writes and its finalization appended) reads back as the
/// frames written, classic and CAN FD, when BLF carries each unchanged and
/// the zlib decoder reads back each buffer the writer compressed (what the
/// writer's `write_frame` and `finalize` state of the buffers they
/// compress).
pub proof fn lemma_blf_roundtrip(fs: Seq<FrameView>, head: Seq<u8>)
    requires
        head.len() == BLF_HEADER_SIZE,
        forall|i: int| 0 <= i < fs.len() ==> blf_keeps(#[trigger] fs[i]),
        blf_log_body(fs) is Some,
        forall|i: int| 0 <= i < log_blocks(fs).len() ==> zlib_roundtrips(
            #[trigger] log_blocks(fs)[i],
        ),
    ensures
        blf_frames(head + blf_log_body(fs).unwrap()) == fs,
{
    lemma_write_all_state(fs);
    let (w, body) = write_all(fresh_writer(), fs).unwrap();
    let m = pending(fs);
    let total = blf_log_body(fs).unwrap();
    let d = head + total;
    let p = BLF_HEADER_SIZE as int;
    assert(d.subrange(p, p + body.len()) =~= body);
    assert forall|i: int| 0 <= i < written_blocks(fs).len() implies zlib_roundtrips(
        #[trigger] written_blocks(fs)[i],
    ) by {
        assert(written_blocks(fs)[i] == log_blocks(fs)[i]);
    }
    lemma_write_all_read(fs, d, p);
    let q = p + body.len();
    let pend = fs.subrange(fs.len() - m, fs.len() as int);
    if m == 0 {
        assert(pend =~= Seq::<FrameView>::empty());
        assert(w.buffer =~= Seq::<u8>::empty());
        assert(total == body);
        lemma_frames_at_end(d);
        assert(fs.take(fs.len() as int) =~= fs);
        assert(fs.take(fs.len() - m) + Seq::<FrameView>::empty() =~= fs);
    } else {
        let c = zlib_deflate(w.buffer);
        assert(log_blocks(fs)[written_blocks(fs).len() as int] == w.buffer);
        assert(zlib_roundtrips(log_blocks(fs)[written_blocks(fs).len() as int]));
        assert(zlib_inflate(zlib_deflate(w.buffer)) == Some(w.buffer));
        let cont = container_object(c, w.buffer.len());
        assert(total == body + cont);
        lemma_container_layout(c, w.buffer.len());
        assert(d.subrange(q, q + cont.len()) =~= cont);
        lemma_container_read(d, q, c, w.buffer.len(), w.buffer);
        assert forall|i: int| 0 <= i < pend.len() implies blf_keeps(#[trigger] pend[i]) by {
            assert(pend[i] == fs[fs.len() - m + i]);
        }
        assert(w.buffer.subrange(0, w.buffer.len() as int) =~= w.buffer);
        lemma_nested_read(w.buffer, 0, pend);
        lemma_frames_at_end(d);
        assert(fs.take(fs.len() - m) + pend + Seq::<FrameView>::empty() =~= fs);
    }
}


/// An object in container data: the object signature, an object size that
/// is its length (at least a header's 32 bytes), and a type.
pub open spec fn object_of_type(o: Seq<u8>, ot: nat) -> bool {
    &&& o.len() >= 32
    &&& field(o, 0, 4) == BLF_OBJECT_SIGNATURE
    &&& field(o, 8, 4) == o.len()
    &&& field(o, 12, 4) == ot
}

proof fn lemma_field_within(n: Seq<u8>, q: int, o: Seq<u8>, k: int, w: nat)
    requires
        0 <= q,
        q + o.len() <= n.len(),
        n.subrange(q, q + o.len()) == o,
        0 <= k,
        k + w <= o.len(),
    ensures
        field(n, q + k, w) == field(o, k, w),
{
    assert(n.subrange(q + k, q + k + w) =~= o.subrange(k, k + w));
}

/// An object of any type but a CAN or CAN FD message in container data
/// gives no frames, and reading goes on right after it: the frames from
/// its position are the frames from the position that follows it.
pub proof fn lemma_nested_skips_other(n: Seq<u8>, q: int, o: Seq<u8>, ot: nat)
    requires
        0 <= q,
        q + o.len() <= n.len(),
        n.subrange(q, q + o.len()) == o,
        object_of_type(o, ot),
        ot != BLF_OBJTYPE_CAN_MESSAGE,
        ot != BLF_OBJTYPE_CAN_FD_MESSAGE,
    ensures
        nested_frames(n, q) == nested_frames(n, q + o.len()),
{
    reveal(nested_frames);
    lemma_field_within(n, q, o, 0, 4);
    lemma_field_within(n, q, o, 8, 4);
    lemma_field_within(n, q, o, 12, 4);
    assert(min_pos(q + 32, n.len() as int) == q + 32);
}

/// Container data holding an object of another type, then the objects of
/// kept frames, reads back as those frames: the other object neither adds
/// frames nor stops the reading.
pub proof fn lemma_nested_other_then_frames(o: Seq<u8>, ot: nat, gs: Seq<FrameView>)
    requires
        object_of_type(o, ot),
        ot != BLF_OBJTYPE_CAN_MESSAGE,
        ot != BLF_OBJTYPE_CAN_FD_MESSAGE,
        forall|i: int| 0 <= i < gs.len() ==> blf_keeps(#[trigger] gs[i]),
    ensures
        nested_frames(o + frame_objects(gs), 0) == gs,
{
    let n = o + frame_objects(gs);
    assert(n.subrange(0, o.len() as int) =~= o);
    lemma_nested_skips_other(n, 0, o, ot);
    assert(n.subrange(o.len() as int, n.len() as int) =~= frame_objects(gs));
    lemma_nested_read(n, o.len() as int, gs);
}

} // verus!
