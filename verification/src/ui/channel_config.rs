//! Channel configuration: the channels offered, their settings, and the
//! bit rates to choose from.
use vstd::prelude::*;

use crate::log::asc::{dec, push_chars};
use crate::text::{push_digits, string_from_chars};
use crate::vector::channel::CanMode;
use crate::vector::driver::HwChannelInfo;

verus! {

/// The settings of one detected channel.
#[derive(Debug, Clone)]
pub struct ChannelUiState {
    pub hw_info: HwChannelInfo,
    pub enabled: bool,
    pub mode: CanMode,
    pub bitrate: u32,
    pub data_bitrate: u32,
}

/// Channel configuration state.
#[derive(Debug, Clone)]
pub struct ChannelConfigState {
    pub channels: Vec<ChannelUiState>,
    pub selected_dbc_path: Option<String>,
}

/// The settings a newly detected channel starts with: disabled, classic
/// CAN at 500 kbit/s, 2 Mbit/s data phase.
pub open spec fn fresh_channel(ch: ChannelUiState, hw: HwChannelInfo) -> bool {
    &&& ch.hw_info == hw
    &&& !ch.enabled
    &&& ch.mode == CanMode::Can
    &&& ch.bitrate == 500000
    &&& ch.data_bitrate == 2000000
}

impl ChannelConfigState {
    /// No channels, no DBC file.
    pub fn new() -> (s: Self)
        ensures
            s.channels@.len() == 0,
            s.selected_dbc_path is None,
    {
        ChannelConfigState { channels: Vec::new(), selected_dbc_path: None }
    }

    /// Replaces the channels by the detected ones, each with fresh settings.
    pub fn set_channels(&mut self, hw_channels: Vec<HwChannelInfo>)
        ensures
            final(self).selected_dbc_path == old(self).selected_dbc_path,
            final(self).channels@.len() == hw_channels@.len(),
            forall|i: int|
                0 <= i < hw_channels@.len() ==> fresh_channel(
                    #[trigger] final(self).channels@[i],
                    hw_channels@[i],
                ),
    {
        let mut channels: Vec<ChannelUiState> = Vec::new();
        let mut rest = hw_channels;
        let ghost all = rest@;
        while rest.len() > 0
            invariant
                channels@.len() + rest@.len() == all.len(),
                rest@ == all.skip(channels@.len() as int),
                forall|i: int|
                    0 <= i < channels@.len() ==> fresh_channel(#[trigger] channels@[i], all[i]),
            decreases rest@.len(),
        {
            let hw = rest.remove(0);
            let ghost n: int = channels@.len() as int;
            assert(rest@ =~= all.skip(n + 1));
            channels.push(
                ChannelUiState {
                    hw_info: hw,
                    enabled: false,
                    mode: CanMode::Can,
                    bitrate: 500000,
                    data_bitrate: 2000000,
                },
            );
        }
        self.channels = channels;
    }
}

/// The arbitration bit rates offered, in bit/s.
pub fn bitrates() -> (v: Vec<u32>)
    ensures
        v@ == seq![
            10000u32,
            20000,
            33333,
            50000,
            83333,
            100000,
            125000,
            250000,
            500000,
            800000,
            1000000,
        ],
{
    let v = vec![10000, 20000, 33333, 50000, 83333, 100000, 125000, 250000, 500000, 800000, 1000000];
    assert(v@ =~= seq![
        10000u32,
        20000,
        33333,
        50000,
        83333,
        100000,
        125000,
        250000,
        500000,
        800000,
        1000000,
    ]);
    v
}

/// The CAN FD data phase bit rates offered, in bit/s.
pub fn fd_data_bitrates() -> (v: Vec<u32>)
    ensures
        v@ == seq![500000u32, 1000000, 2000000, 4000000, 5000000, 8000000],
{
    let v = vec![500000, 1000000, 2000000, 4000000, 5000000, 8000000];
    assert(v@ =~= seq![500000u32, 1000000, 2000000, 4000000, 5000000, 8000000]);
    v
}

/// A bit rate as shown: whole Mbit/s from 1 Mbit/s on, whole kbit/s from
/// 1 kbit/s on, else bit/s.
pub open spec fn bitrate_text(br: u32) -> Seq<char> {
    if br >= 1_000_000 {
        dec((br / 1_000_000) as nat) + " Mbit/s"@
    } else if br >= 1000 {
        dec((br / 1000) as nat) + " kbit/s"@
    } else {
        dec(br as nat) + " bit/s"@
    }
}

/// Formats a bit rate for display.
pub fn format_bitrate(br: u32) -> (s: String)
    ensures
        s@ == bitrate_text(br),
{
    let mut out: Vec<char> = Vec::new();
    if br >= 1_000_000 {
        push_digits(&mut out, (br / 1_000_000) as u64, 10, false);
        let unit = [' ', 'M', 'b', 'i', 't', '/', 's'];
        push_chars(&mut out, unit.as_slice());
        proof {
            reveal_strlit(" Mbit/s");
        }
        assert(out@ =~= bitrate_text(br));
    } else if br >= 1000 {
        push_digits(&mut out, (br / 1000) as u64, 10, false);
        let unit = [' ', 'k', 'b', 'i', 't', '/', 's'];
        push_chars(&mut out, unit.as_slice());
        proof {
            reveal_strlit(" kbit/s");
        }
        assert(out@ =~= bitrate_text(br));
    } else {
        push_digits(&mut out, br as u64, 10, false);
        let unit = [' ', 'b', 'i', 't', '/', 's'];
        push_chars(&mut out, unit.as_slice());
        proof {
            reveal_strlit(" bit/s");
        }
        assert(out@ =~= bitrate_text(br));
    }
    string_from_chars(out.as_slice())
}

} // verus!
