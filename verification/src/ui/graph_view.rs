//! Modes of the signal graph view.
use vstd::prelude::*;

verus! {

/// Graph display mode.
#[derive(Debug, Clone, Copy, PartialEq, Eq, Structural)]
pub enum GraphMode {
    /// Live data.
    Realtime,
    /// Log file playback.
    Playback,
}

} // verus!
