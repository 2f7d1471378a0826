//! Decisions of the transmitter: which received frames are forwarded and
//! as what, the phases of the trapezoidal wave, and the frames it sends.
use vstd::prelude::*;

use crate::can::frame::{classic_frame, fd_frame, CanFrame, Direction, FrameView};

verus! {

/// Whether a received frame is forwarded: a received (not transmitted)
/// frame on the forwarding channel, whose identifier is in the filter
/// unless the filter is empty.
pub open spec fn forwards(f: FrameView, rx_channel: u8, filter: Seq<u32>) -> bool {
    &&& f.direction == Direction::Rx
    &&& f.channel == rx_channel
    &&& (filter.len() == 0 || filter.contains(f.id))
}

/// Decides whether a received frame is forwarded.
pub fn should_forward(frame: &CanFrame, rx_channel: u8, message_filter: &[u32]) -> (b: bool)
    ensures
        b == forwards(frame@, rx_channel, message_filter@),
{
    if frame.direction != Direction::Rx {
        return false;
    }
    if frame.channel != rx_channel {
        return false;
    }
    if message_filter.len() == 0 {
        return true;
    }
    let mut i: usize = 0;
    while i < message_filter.len()
        invariant
            0 <= i <= message_filter@.len(),
            frame.direction == Direction::Rx,
            frame.channel == rx_channel,
            message_filter@.len() > 0,
            forall|j: int| 0 <= j < i ==> message_filter@[j] != frame.id,
        decreases message_filter@.len() - i,
    {
        if message_filter[i] == frame.id {
            assert(message_filter@.contains(frame.id)) by {
                assert(message_filter@[i as int] == frame.id);
            }
            return true;
        }
        i = i + 1;
    }
    false
}

/// The frame that forwards `f`: the same frame, transmitted.
pub open spec fn forwarded(f: FrameView) -> FrameView {
    FrameView { direction: Direction::Tx, ..f }
}

/// The frame that forwards a received one.
pub fn forwarded_frame(frame: &CanFrame) -> (t: CanFrame)
    ensures
        t@ == forwarded(frame@),
{
    CanFrame {
        timestamp_ns: frame.timestamp_ns,
        channel: frame.channel,
        id: frame.id,
        is_fd: frame.is_fd,
        is_extended: frame.is_extended,
        is_brs: frame.is_brs,
        is_esi: frame.is_esi,
        is_rtr: frame.is_rtr,
        dlc: frame.dlc,
        data: vstd::slice::slice_to_vec(frame.data.as_slice()),
        direction: Direction::Tx,
    }
}

/// Phase of the trapezoidal wave.
#[derive(Debug, Clone, Copy, PartialEq, Eq, Structural)]
pub enum TrapezoidPhase {
    Rising,
    Hold,
    Falling,
    Done,
}

/// The phase after one send cycle, and whether the phase clock restarts:
/// rising ends once the value reaches the maximum, holding once the hold
/// time has passed, falling once the value is back at the initial value,
/// after which the wave rises again if it repeats and is done otherwise.
pub open spec fn phase_after(
    phase: TrapezoidPhase,
    reached_max: bool,
    hold_elapsed: bool,
    reached_initial: bool,
    repeat: bool,
) -> (TrapezoidPhase, bool) {
    match phase {
        TrapezoidPhase::Rising => if reached_max {
            (TrapezoidPhase::Hold, true)
        } else {
            (TrapezoidPhase::Rising, false)
        },
        TrapezoidPhase::Hold => if hold_elapsed {
            (TrapezoidPhase::Falling, true)
        } else {
            (TrapezoidPhase::Hold, false)
        },
        TrapezoidPhase::Falling => if reached_initial {
            if repeat {
                (TrapezoidPhase::Rising, true)
            } else {
                (TrapezoidPhase::Done, false)
            }
        } else {
            (TrapezoidPhase::Falling, false)
        },
        TrapezoidPhase::Done => (TrapezoidPhase::Done, false),
    }
}

/// The next phase of the wave and whether its clock restarts, from what
/// this cycle observed: whether the rising value reached the maximum,
/// whether the hold time passed, whether the falling value reached the
/// initial value.
pub fn next_phase(
    phase: TrapezoidPhase,
    reached_max: bool,
    hold_elapsed: bool,
    reached_initial: bool,
    repeat: bool,
) -> (r: (TrapezoidPhase, bool))
    ensures
        r == phase_after(phase, reached_max, hold_elapsed, reached_initial, repeat),
{
    match phase {
        TrapezoidPhase::Rising => if reached_max {
            (TrapezoidPhase::Hold, true)
        } else {
            (TrapezoidPhase::Rising, false)
        },
        TrapezoidPhase::Hold => if hold_elapsed {
            (TrapezoidPhase::Falling, true)
        } else {
            (TrapezoidPhase::Hold, false)
        },
        TrapezoidPhase::Falling => if reached_initial {
            if repeat {
                (TrapezoidPhase::Rising, true)
            } else {
                (TrapezoidPhase::Done, false)
            }
        } else {
            (TrapezoidPhase::Falling, false)
        },
        TrapezoidPhase::Done => (TrapezoidPhase::Done, false),
    }
}

/// A finished wave stays finished; a wave that repeats never finishes;
/// and a wave finishes only from falling, once back at the initial value,
/// when it does not repeat.
pub proof fn lemma_wave_phases(
    phase: TrapezoidPhase,
    reached_max: bool,
    hold_elapsed: bool,
    reached_initial: bool,
    repeat: bool,
)
    ensures
        phase == TrapezoidPhase::Done ==> phase_after(
            phase,
            reached_max,
            hold_elapsed,
            reached_initial,
            repeat,
        ).0 == TrapezoidPhase::Done,
        repeat && phase != TrapezoidPhase::Done ==> phase_after(
            phase,
            reached_max,
            hold_elapsed,
            reached_initial,
            repeat,
        ).0 != TrapezoidPhase::Done,
        phase != TrapezoidPhase::Done && phase_after(
            phase,
            reached_max,
            hold_elapsed,
            reached_initial,
            repeat,
        ).0 == TrapezoidPhase::Done ==> phase == TrapezoidPhase::Falling && reached_initial
            && !repeat,
{
}

/// Whether the wave sends a frame in this phase: in every phase but done.
pub fn sends_in(phase: TrapezoidPhase) -> (b: bool)
    ensures
        b == (phase != TrapezoidPhase::Done),
{
    phase != TrapezoidPhase::Done
}

/// The frame the wave sends: on channel 0 at time 0, transmitted, extended
/// when the identifier is above 0x7FF, CAN FD with bit rate switch when so
/// configured.
pub open spec fn wave_frame(message_id: u32, is_fd: bool, dlc: u8, data: Seq<u8>) -> FrameView {
    if is_fd {
        fd_frame(0, 0, message_id, message_id > 0x7FF, true, dlc, data, Direction::Tx)
    } else {
        classic_frame(0, 0, message_id, message_id > 0x7FF, dlc, data, Direction::Tx)
    }
}

/// Builds the frame the wave sends.
pub fn trapezoid_frame(message_id: u32, is_fd: bool, dlc: u8, data: &[u8]) -> (f: CanFrame)
    ensures
        f@ == wave_frame(message_id, is_fd, dlc, data@),
{
    if is_fd {
        CanFrame::new_canfd(0, 0, message_id, message_id > 0x7FF, true, dlc, data, Direction::Tx)
    } else {
        CanFrame::new_can(0, 0, message_id, message_id > 0x7FF, dlc, data, Direction::Tx)
    }
}

} // verus!
