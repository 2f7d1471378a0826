//! The hardware channels that the driver reports: which are listed, and
//! what is told of each.
use vstd::prelude::*;

use crate::vector::types::{
    XLaccess, XLchannelConfig, XLdriverConfig, XL_BUS_TYPE_CAN, XL_CONFIG_MAX_CHANNELS,
    XL_HWTYPE_CANCARDXL, XL_HWTYPE_VIRTUAL, XL_HWTYPE_VN1610, XL_HWTYPE_VN1630, XL_HWTYPE_VN1640,
    XL_HWTYPE_VN1670,
};

verus! {

/// A detected hardware channel.
#[derive(Debug, Clone)]
pub struct HwChannelInfo {
    pub channel_index: u32,
    pub channel_mask: XLaccess,
    pub hw_type: u32,
    pub hw_index: u32,
    pub hw_channel: u32,
    pub name: String,
    pub serial_number: u32,
    pub transceiver_name: String,
    pub is_on_bus: bool,
}

/// The name of a hardware type.
pub open spec fn hw_type_label(hw_type: u32) -> Seq<char> {
    if hw_type == XL_HWTYPE_VIRTUAL {
        "Virtual"@
    } else if hw_type == XL_HWTYPE_CANCARDXL {
        "CANcardXL"@
    } else if hw_type == XL_HWTYPE_VN1610 {
        "VN1610"@
    } else if hw_type == XL_HWTYPE_VN1630 {
        "VN1630"@
    } else if hw_type == XL_HWTYPE_VN1640 {
        "VN1640"@
    } else if hw_type == XL_HWTYPE_VN1670 {
        "VN1670"@
    } else {
        "Unknown"@
    }
}

impl HwChannelInfo {
    /// Whether this is a virtual CAN channel.
    pub fn is_virtual(&self) -> (b: bool)
        ensures
            b == (self.hw_type == XL_HWTYPE_VIRTUAL),
    {
        self.hw_type == XL_HWTYPE_VIRTUAL
    }

    /// The name of the hardware type.
    pub fn hw_type_name(&self) -> (s: &'static str)
        ensures
            s@ == hw_type_label(self.hw_type),
    {
        if self.hw_type == XL_HWTYPE_VIRTUAL {
            "Virtual"
        } else if self.hw_type == XL_HWTYPE_CANCARDXL {
            "CANcardXL"
        } else if self.hw_type == XL_HWTYPE_VN1610 {
            "VN1610"
        } else if self.hw_type == XL_HWTYPE_VN1630 {
            "VN1630"
        } else if self.hw_type == XL_HWTYPE_VN1640 {
            "VN1640"
        } else if self.hw_type == XL_HWTYPE_VN1670 {
            "VN1670"
        } else {
            "Unknown"
        }
    }
}

/// What `String::from_utf8_lossy` makes of `bytes`.
pub uninterp spec fn utf8_lossy(bytes: Seq<u8>) -> Seq<char>;

/// `String::from_utf8_lossy`, owned. Claims the result is the named
/// function of the bytes, and, for valid UTF-8, exactly the text they encode
/// (invalid sequences become U+FFFD; that replacement is left unstated).
#[verifier::external_body]
fn string_from_utf8_lossy(bytes: &[u8]) -> (s: String)
    ensures
        s@ == utf8_lossy(bytes@),
        vstd::utf8::valid_utf8(bytes@) ==> s@ == vstd::utf8::decode_utf8(bytes@),
{
    String::from_utf8_lossy(bytes).into_owned()
}

/// The bytes of a C string buffer before its first NUL (all of them
/// when there is none).
pub open spec fn until_nul(b: Seq<u8>) -> Seq<u8>
    decreases b.len(),
{
    if b.len() == 0 || b[0] == 0 {
        seq![]
    } else {
        seq![b[0]] + until_nul(b.drop_first())
    }
}

fn nul_end(b: &[u8]) -> (k: usize)
    ensures
        k <= b@.len(),
        b@.take(k as int) == until_nul(b@),
{
    let mut i: usize = 0;
    assert(b@.skip(0) =~= b@);
    while i < b.len() && b[i] != 0
        invariant
            0 <= i <= b@.len(),
            until_nul(b@) == b@.take(i as int) + until_nul(b@.skip(i as int)),
        decreases b@.len() - i,
    {
        assert(b@.skip(i as int).drop_first() =~= b@.skip(i + 1));
        assert(b@.take(i as int) + seq![b@[i as int]] =~= b@.take(i + 1));
        i = i + 1;
    }
    assert(until_nul(b@.skip(i as int)) == Seq::<u8>::empty());
    assert(b@.take(i as int) + Seq::<u8>::empty() =~= b@.take(i as int));
    i
}

/// The text of a C string buffer.
pub open spec fn c_text(b: Seq<u8>) -> Seq<char> {
    utf8_lossy(until_nul(b))
}

fn c_string(b: &[u8]) -> (s: String)
    ensures
        s@ == c_text(b@),
{
    let k = nul_end(b);
    string_from_utf8_lossy(vstd::slice::slice_subrange(b, 0, k))
}

/// Whether a channel is listed: virtual channels always, other channels
/// when they can carry CAN or are connected to a CAN bus.
pub open spec fn channel_listed(ch: XLchannelConfig) -> bool {
    ||| ch.hwType as u32 == XL_HWTYPE_VIRTUAL
    ||| ch.channelBusCapabilities & XL_BUS_TYPE_CAN != 0
    ||| ch.connectedBusType == XL_BUS_TYPE_CAN
}

/// Whether `info` tells what the driver reported for `ch`.
pub open spec fn describes(info: HwChannelInfo, ch: XLchannelConfig) -> bool {
    &&& info.channel_index == ch.channelIndex as u32
    &&& info.channel_mask == ch.channelMask
    &&& info.hw_type == ch.hwType as u32
    &&& info.hw_index == ch.hwIndex as u32
    &&& info.hw_channel == ch.hwChannel as u32
    &&& info.name@ == c_text(ch.name@)
    &&& info.serial_number == ch.serialNumber
    &&& info.transceiver_name@ == c_text(ch.transceiverName@)
    &&& info.is_on_bus == (ch.isOnBus != 0)
}

/// The listed channels among `chs`, in order.
pub open spec fn listed(chs: Seq<XLchannelConfig>) -> Seq<XLchannelConfig>
    decreases chs.len(),
{
    if chs.len() == 0 {
        seq![]
    } else if channel_listed(chs.last()) {
        listed(chs.drop_last()).push(chs.last())
    } else {
        listed(chs.drop_last())
    }
}

/// What is told of a channel, if it is listed.
pub fn channel_info(ch: &XLchannelConfig) -> (r: Option<HwChannelInfo>)
    ensures
        match r {
            Some(info) => channel_listed(*ch) && describes(info, *ch),
            None => !channel_listed(*ch),
        },
{
    let is_virtual = ch.hwType as u32 == XL_HWTYPE_VIRTUAL;
    let is_can_capable = ch.channelBusCapabilities & XL_BUS_TYPE_CAN != 0 || ch.connectedBusType
        == XL_BUS_TYPE_CAN;
    if !is_virtual && !is_can_capable {
        return None;
    }
    let name = c_string(ch.name.as_slice());
    let transceiver_name = c_string(ch.transceiverName.as_slice());
    Some(
        HwChannelInfo {
            channel_index: ch.channelIndex as u32,
            channel_mask: ch.channelMask,
            hw_type: ch.hwType as u32,
            hw_index: ch.hwIndex as u32,
            hw_channel: ch.hwChannel as u32,
            name,
            serial_number: ch.serialNumber,
            transceiver_name,
            is_on_bus: ch.isOnBus != 0,
        },
    )
}

/// The channels the driver reports in `config`: of the first
/// `channelCount` entries (at most `XL_CONFIG_MAX_CHANNELS`, and no more
/// than `channel` holds), the listed ones, in order.
pub open spec fn reported(config: XLdriverConfig) -> Seq<XLchannelConfig> {
    let n = if (config.channelCount as int) < XL_CONFIG_MAX_CHANNELS as int {
        config.channelCount as int
    } else {
        XL_CONFIG_MAX_CHANNELS as int
    };
    let m = if n < config.channel@.len() {
        n
    } else {
        config.channel@.len() as int
    };
    listed(config.channel@.take(m))
}

/// The channels of a driver configuration that are listed, described.
pub fn channels_of(config: &XLdriverConfig) -> (r: Vec<HwChannelInfo>)
    ensures
        r@.len() == reported(*config).len(),
        forall|i: int| 0 <= i < r@.len() ==> describes(#[trigger] r@[i], reported(*config)[i]),
{
    let count = config.channelCount as usize;
    let mut channels: Vec<HwChannelInfo> = Vec::new();
    let mut i: usize = 0;
    let ghost n: int = if (config.channelCount as int) < XL_CONFIG_MAX_CHANNELS as int {
        config.channelCount as int
    } else {
        XL_CONFIG_MAX_CHANNELS as int
    };
    let ghost m: int = if n < config.channel@.len() {
        n
    } else {
        config.channel@.len() as int
    };
    while i < count
        invariant
            0 <= i <= m,
            count == config.channelCount as usize,
            n == (if (config.channelCount as int) < XL_CONFIG_MAX_CHANNELS as int {
                config.channelCount as int
            } else {
                XL_CONFIG_MAX_CHANNELS as int
            }),
            m == (if n < config.channel@.len() {
                n
            } else {
                config.channel@.len() as int
            }),
            channels@.len() == listed(config.channel@.take(i as int)).len(),
            forall|j: int|
                0 <= j < channels@.len() ==> describes(
                    #[trigger] channels@[j],
                    listed(config.channel@.take(i as int))[j],
                ),
        ensures
            channels@.len() == listed(config.channel@.take(m)).len(),
            forall|j: int|
                0 <= j < channels@.len() ==> describes(
                    #[trigger] channels@[j],
                    listed(config.channel@.take(m))[j],
                ),
        decreases count - i,
    {
        if i >= XL_CONFIG_MAX_CHANNELS || i >= config.channel.len() {
            break;
        }
        let ghost pre = listed(config.channel@.take(i as int));
        assert(config.channel@.take(i + 1).drop_last() =~= config.channel@.take(i as int));
        assert(config.channel@.take(i + 1).last() == config.channel@[i as int]);
        match channel_info(&config.channel[i]) {
            Some(info) => {
                channels.push(info);
            },
            None => {},
        }
        i = i + 1;
    }
    channels
}

} // verus!
