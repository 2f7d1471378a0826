//! The CAN log view: the frames kept for display, and which rows the
//! filters show.
use vstd::prelude::*;

use crate::can::frame::CanFrame;
use crate::text::{parse_bounded, parse_uint};

verus! {

/// State of the log view.
pub struct LogViewState {
    /// The frames kept, oldest first.
    pub frames: Vec<CanFrame>,
    /// How many frames are kept at most.
    pub max_frames: usize,
    /// Scroll to the newest frame.
    pub auto_scroll: bool,
    /// Show only this channel.
    pub channel_filter: Option<u8>,
    /// Show only this identifier (hexadecimal text).
    pub id_filter: String,
    /// Display paused.
    pub paused: bool,
    /// Frames received since the last clear.
    pub total_count: u64,
}

/// The frames kept after `f` arrives: the oldest one leaves when `max`
/// are already kept.
pub open spec fn kept_after(frames: Seq<CanFrame>, max: usize, f: CanFrame) -> Seq<CanFrame> {
    if frames.len() >= max {
        frames.drop_first().push(f)
    } else {
        frames.push(f)
    }
}

/// The log view never keeps more frames than its limit: adding a frame to
/// at most `max` kept frames (a limit of at least one) leaves at most
/// `max`, the new frame last.
pub proof fn lemma_kept_bounded(frames: Seq<CanFrame>, max: usize, f: CanFrame)
    requires
        frames.len() <= max,
        max >= 1,
    ensures
        kept_after(frames, max, f).len() <= max,
        kept_after(frames, max, f).last() == f,
{
}

/// The frames kept after each of `fs` arrives in turn.
pub open spec fn kept_all(frames: Seq<CanFrame>, max: usize, fs: Seq<CanFrame>) -> Seq<CanFrame>
    decreases fs.len(),
{
    if fs.len() == 0 {
        frames
    } else {
        kept_after(kept_all(frames, max, fs.drop_last()), max, fs.last())
    }
}

impl LogViewState {
    /// Empty, keeping up to 50000 frames, scrolling, unfiltered, running.
    pub fn new() -> (s: Self)
        ensures
            s.frames@.len() == 0,
            s.max_frames == 50000,
            s.auto_scroll,
            s.channel_filter is None,
            s.id_filter@.len() == 0,
            !s.paused,
            s.total_count == 0,
    {
        LogViewState {
            frames: Vec::new(),
            max_frames: 50000,
            auto_scroll: true,
            channel_filter: None,
            id_filter: String::new(),
            paused: false,
            total_count: 0,
        }
    }

    /// Keeps a frame, dropping the oldest when full, and counts it.
    pub fn add_frame(&mut self, frame: CanFrame)
        requires
            old(self).total_count < u64::MAX,
            old(self).frames@.len() >= old(self).max_frames ==> old(self).frames@.len() > 0,
        ensures
            final(self).frames@ == kept_after(old(self).frames@, old(self).max_frames, frame),
            final(self).total_count == old(self).total_count + 1,
            final(self).max_frames == old(self).max_frames,
            final(self).auto_scroll == old(self).auto_scroll,
            final(self).channel_filter == old(self).channel_filter,
            final(self).id_filter@ == old(self).id_filter@,
            final(self).paused == old(self).paused,
    {
        self.total_count = self.total_count + 1;
        if self.frames.len() >= self.max_frames {
            self.frames.remove(0);
        }
        self.frames.push(frame);
    }

    /// Keeps each of the frames in turn, as `add_frame` does.
    pub fn add_frames(&mut self, frames: Vec<CanFrame>)
        requires
            old(self).total_count + frames@.len() <= u64::MAX,
            frames@.len() > 0 && old(self).frames@.len() >= old(self).max_frames ==> old(
                self,
            ).frames@.len() > 0,
        ensures
            final(self).frames@ == kept_all(old(self).frames@, old(self).max_frames, frames@),
            final(self).total_count == old(self).total_count + frames@.len(),
            final(self).max_frames == old(self).max_frames,
            final(self).auto_scroll == old(self).auto_scroll,
            final(self).channel_filter == old(self).channel_filter,
            final(self).id_filter@ == old(self).id_filter@,
            final(self).paused == old(self).paused,
    {
        let ghost start = self.frames@;
        let ghost count = self.total_count;
        let ghost max = self.max_frames;
        let ghost auto = self.auto_scroll;
        let ghost chf = self.channel_filter;
        let ghost idf = self.id_filter@;
        let ghost paused = self.paused;
        let ghost fs = frames@;
        assert(fs.take(0) =~= Seq::<CanFrame>::empty());
        for f in it: frames.into_iter()
            invariant
                it.seq() == fs,
                count + fs.len() <= u64::MAX,
                self.max_frames == max,
                self.auto_scroll == auto,
                self.channel_filter == chf,
                self.id_filter@ == idf,
                self.paused == paused,
                self.total_count == count + it.index(),
                self.frames@ == kept_all(start, max, fs.take(it.index() as int)),
                fs.len() > 0 && self.frames@.len() >= max ==> self.frames@.len() > 0,
        {
            let ghost i = it.index();
            assert(fs.take(i + 1).drop_last() =~= fs.take(i as int));
            assert(fs.take(i + 1).last() == f);
            self.add_frame(f);
        }
        assert(fs.take(fs.len() as int) =~= fs);
    }

    /// Forgets all frames and the count.
    pub fn clear(&mut self)
        ensures
            final(self).frames@.len() == 0,
            final(self).total_count == 0,
            final(self).max_frames == old(self).max_frames,
            final(self).auto_scroll == old(self).auto_scroll,
            final(self).channel_filter == old(self).channel_filter,
            final(self).id_filter@ == old(self).id_filter@,
            final(self).paused == old(self).paused,
    {
        self.frames.clear();
        self.total_count = 0;
    }
}

impl Default for LogViewState {
    fn default() -> (s: Self)
        ensures
            s.frames@.len() == 0,
            s.max_frames == 50000,
            s.total_count == 0,
    {
        Self::new()
    }
}

/// The text without every leading `0x`.
pub open spec fn strip_hex_prefix(t: Seq<char>) -> Seq<char>
    decreases t.len(),
{
    if t.len() >= 2 && t[0] == '0' && t[1] == 'x' {
        strip_hex_prefix(t.skip(2))
    } else {
        t
    }
}

/// The identifier an identifier filter text names: none when empty or
/// not a hexadecimal `u32` (after any leading `0x`).
pub open spec fn id_filter_of(t: Seq<char>) -> Option<u32> {
    if t.len() == 0 {
        None
    } else {
        match parse_bounded(strip_hex_prefix(t), 16, u32::MAX as nat) {
            Some(v) => Some(v as u32),
            None => None,
        }
    }
}

/// Reads the identifier filter text.
pub fn id_filter_value(text: &str) -> (r: Option<u32>)
    ensures
        r == id_filter_of(text@),
{
    let s = crate::text::chars_of(text);
    if s.len() == 0 {
        return None;
    }
    let mut a: usize = 0;
    assert(s@.skip(0) =~= s@);
    while a < s.len() && s.len() - a >= 2 && s[a] == '0' && s[a + 1] == 'x'
        invariant
            0 <= a <= s@.len(),
            strip_hex_prefix(s@) == strip_hex_prefix(s@.skip(a as int)),
        decreases s@.len() - a,
    {
        assert(s@.skip(a as int).skip(2) =~= s@.skip(a + 2));
        a = a + 2;
    }
    assert(s@.subrange(a as int, s@.len() as int) =~= s@.skip(a as int));
    match parse_uint(s.as_slice(), a, s.len(), 16, 0xFFFF_FFFF) {
        Some(v) => Some(v as u32),
        None => None,
    }
}

/// Whether a frame's row is shown under the channel and identifier filters.
pub open spec fn row_shown(channel: u8, id: u32, channel_filter: Option<u8>, id_filter: Option<u32>) -> bool {
    &&& (channel_filter matches Some(c) ==> channel == c)
    &&& (id_filter matches Some(i) ==> id == i)
}

/// Whether a frame's row is shown under the filters.
pub fn row_visible(frame: &CanFrame, channel_filter: Option<u8>, id_filter: Option<u32>) -> (b: bool)
    ensures
        b == row_shown(frame.channel, frame.id, channel_filter, id_filter),
{
    match channel_filter {
        Some(c) => {
            if frame.channel != c {
                return false;
            }
        },
        None => {},
    }
    match id_filter {
        Some(i) => frame.id == i,
        None => true,
    }
}

} // verus!
