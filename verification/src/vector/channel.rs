//! CAN channel configuration, and the conversions between frames and the
//! driver's message structures that transmitting and receiving make.
use vstd::prelude::*;

use crate::can::frame::{
    classic_frame, fd_frame, time_from_ticks, time_from_u64, CanFrame, Direction, FrameView,
};
use crate::vector::types::{
    dlc_len, dlc_to_len, XLaccess, XLcanFdConf, XLcanFdEvent, XLcanFdTxMsg, XLcanMsg, XLevent,
    XL_CAN_EV_TAG_RX_OK, XL_CAN_EV_TAG_TX_OK, XL_CAN_MSG_FLAG_ERROR_FRAME,
    XL_CAN_MSG_FLAG_TX_COMPLETED, XL_CAN_RXMSG_FLAG_BRS, XL_CAN_RXMSG_FLAG_EDL,
    XL_CAN_TXMSG_FLAG_BRS, XL_CAN_TXMSG_FLAG_EDL, XL_RECEIVE_MSG, XL_TRANSMIT_MSG,
};

verus! {

/// CAN channel mode.
#[derive(Debug, Clone, Copy, PartialEq, Eq, Structural)]
pub enum CanMode {
    /// Classic CAN.
    Can,
    /// CAN FD.
    CanFd,
}

/// Configuration for opening a CAN channel.
#[derive(Debug, Clone)]
pub struct ChannelConfig {
    pub channel_mask: XLaccess,
    pub mode: CanMode,
    pub bitrate: u32,
    /// CAN FD data bitrate (used in CAN FD mode only).
    pub data_bitrate: u32,
}

impl Default for ChannelConfig {
    /// Classic CAN at 500 kbit/s, 2 Mbit/s data phase, no channel.
    fn default() -> (c: Self)
        ensures
            c.channel_mask == 0,
            c.mode == CanMode::Can,
            c.bitrate == 500000,
            c.data_bitrate == 2000000,
    {
        ChannelConfig { channel_mask: 0, mode: CanMode::Can, bitrate: 500000, data_bitrate: 2000000 }
    }
}

/// The channels of all configurations together.
pub open spec fn mask_union(cfgs: Seq<ChannelConfig>) -> u64
    decreases cfgs.len(),
{
    if cfgs.len() == 0 {
        0
    } else {
        mask_union(cfgs.drop_last()) | cfgs.last().channel_mask
    }
}

/// The access mask of a port opened on `configs`.
pub fn access_mask_of(configs: &[ChannelConfig]) -> (m: XLaccess)
    ensures
        m == mask_union(configs@),
{
    let mut m: XLaccess = 0;
    let mut i: usize = 0;
    while i < configs.len()
        invariant
            0 <= i <= configs@.len(),
            m == mask_union(configs@.take(i as int)),
        decreases configs@.len() - i,
    {
        assert(configs@.take(i + 1).drop_last() =~= configs@.take(i as int));
        m = m | configs[i].channel_mask;
        i = i + 1;
    }
    assert(configs@.take(i as int) =~= configs@);
    m
}

/// The driver interface version a port of `mode` is opened with.
pub fn interface_version(mode: CanMode) -> (v: u32)
    ensures
        v == (match mode {
            CanMode::Can => 3u32,
            CanMode::CanFd => 4u32,
        }),
{
    match mode {
        CanMode::Can => 3,
        CanMode::CanFd => 4,
    }
}

/// The CAN FD bit timing of a channel configuration: its two bit rates,
/// every other field zero.
pub fn fd_configuration(cfg: &ChannelConfig) -> (c: XLcanFdConf)
    ensures
        c.arbitrationBitRate == cfg.bitrate,
        c.dataBitRate == cfg.data_bitrate,
        c.sjwAbr == 0 && c.tseg1Abr == 0 && c.tseg2Abr == 0 && c.reserved1 == 0,
        c.sjwDbr == 0 && c.tseg1Dbr == 0 && c.tseg2Dbr == 0,
        c.reserved2 == 0 && c.reserved3 == 0 && c.options == 0,
        c.reserved4@ == seq![0u8, 0u8],
        c.reserved5@ == seq![0u32, 0u32, 0u32, 0u32],
{
    let c = XLcanFdConf {
        arbitrationBitRate: cfg.bitrate,
        sjwAbr: 0,
        tseg1Abr: 0,
        tseg2Abr: 0,
        reserved1: 0,
        dataBitRate: cfg.data_bitrate,
        sjwDbr: 0,
        tseg1Dbr: 0,
        tseg2Dbr: 0,
        reserved2: 0,
        reserved3: 0,
        options: 0,
        reserved4: [0, 0],
        reserved5: [0, 0, 0, 0],
    };
    assert(c.reserved4@ =~= seq![0u8, 0u8]);
    assert(c.reserved5@ =~= seq![0u32, 0u32, 0u32, 0u32]);
    c
}

/// Whether `c` is the CAN FD bit timing of `cfg` (what `fd_configuration`
/// gives).
pub open spec fn fd_conf_for(c: XLcanFdConf, cfg: ChannelConfig) -> bool {
    &&& c.arbitrationBitRate == cfg.bitrate
    &&& c.dataBitRate == cfg.data_bitrate
    &&& c.sjwAbr == 0 && c.tseg1Abr == 0 && c.tseg2Abr == 0 && c.reserved1 == 0
    &&& c.sjwDbr == 0 && c.tseg1Dbr == 0 && c.tseg2Dbr == 0
    &&& c.reserved2 == 0 && c.reserved3 == 0 && c.options == 0
    &&& c.reserved4@ == seq![0u8, 0u8]
    &&& c.reserved5@ == seq![0u32, 0u32, 0u32, 0u32]
}

/// How one channel of an opened port is set up.
pub enum ChannelSetup {
    /// Classic CAN: the channels of the mask get the bit rate.
    Bitrate { channel_mask: XLaccess, bitrate: u32 },
    /// CAN FD: the channels of the mask get the bit timing.
    FdConfiguration { channel_mask: XLaccess, conf: XLcanFdConf },
}

/// The configurations whose channels the port's permission mask grants,
/// in order.
pub open spec fn granted(permission: XLaccess, cfgs: Seq<ChannelConfig>) -> Seq<ChannelConfig>
    decreases cfgs.len(),
{
    if cfgs.len() == 0 {
        seq![]
    } else {
        granted(permission, cfgs.drop_last()) + if permission & cfgs.last().channel_mask != 0 {
            seq![cfgs.last()]
        } else {
            seq![]
        }
    }
}

/// Whether `s` sets a channel up as `cfg` asks: its bit rate in classic
/// CAN mode, its CAN FD bit timing in CAN FD mode.
pub open spec fn setup_for(s: ChannelSetup, cfg: ChannelConfig) -> bool {
    match cfg.mode {
        CanMode::Can => s == ChannelSetup::Bitrate {
            channel_mask: cfg.channel_mask,
            bitrate: cfg.bitrate,
        },
        CanMode::CanFd => match s {
            ChannelSetup::FdConfiguration { channel_mask, conf } => channel_mask == cfg.channel_mask
                && fd_conf_for(conf, cfg),
            ChannelSetup::Bitrate { .. } => false,
        },
    }
}

/// How the channels of a port opened on `configs` are set up, once the
/// driver granted `permission`: one step for each configuration whose
/// channels the permission mask grants, in order.
pub fn channel_setup_plan(permission: XLaccess, configs: &[ChannelConfig]) -> (p: Vec<ChannelSetup>)
    ensures
        p@.len() == granted(permission, configs@).len(),
        forall|i: int|
            0 <= i < p@.len() ==> setup_for(#[trigger] p@[i], granted(permission, configs@)[i]),
{
    let mut p: Vec<ChannelSetup> = Vec::new();
    let mut i: usize = 0;
    while i < configs.len()
        invariant
            0 <= i <= configs@.len(),
            p@.len() == granted(permission, configs@.take(i as int)).len(),
            forall|k: int|
                0 <= k < p@.len() ==> setup_for(
                    #[trigger] p@[k],
                    granted(permission, configs@.take(i as int))[k],
                ),
        decreases configs@.len() - i,
    {
        let cfg = &configs[i];
        let ghost before = granted(permission, configs@.take(i as int));
        assert(configs@.take(i + 1).drop_last() =~= configs@.take(i as int));
        assert(configs@.take(i + 1).last() == *cfg);
        if permission & cfg.channel_mask != 0 {
            let step = match cfg.mode {
                CanMode::Can => ChannelSetup::Bitrate {
                    channel_mask: cfg.channel_mask,
                    bitrate: cfg.bitrate,
                },
                CanMode::CanFd => ChannelSetup::FdConfiguration {
                    channel_mask: cfg.channel_mask,
                    conf: fd_configuration(cfg),
                },
            };
            assert(setup_for(step, *cfg));
            p.push(step);
            assert(granted(permission, configs@.take(i + 1)) == before.push(*cfg));
        } else {
            assert(granted(permission, configs@.take(i + 1)) =~= before);
        }
        i = i + 1;
    }
    assert(configs@.take(i as int) =~= configs@);
    p
}

/// `n` zero bytes.
pub open spec fn zeros(n: nat) -> Seq<u8> {
    Seq::new(n, |i: int| 0u8)
}

/// The first `N` bytes of `data`, zero-filled when it is shorter.
pub open spec fn padded(data: Seq<u8>, n: nat) -> Seq<u8> {
    if data.len() < n {
        data + zeros((n - data.len()) as nat)
    } else {
        data.take(n as int)
    }
}

fn copy_padded<const N: usize>(data: &[u8]) -> (a: [u8; N])
    ensures
        a@ == padded(data@, N as nat),
{
    let mut a: [u8; N] = vstd::array::array_fill_for_copy_types(0u8);
    let n = if data.len() < N {
        data.len()
    } else {
        N
    };
    let mut i: usize = 0;
    while i < n
        invariant
            0 <= i <= n <= N,
            n <= data@.len(),
            n == (if data@.len() < N {
                data@.len()
            } else {
                N as nat
            }),
            a@.len() == N,
            forall|j: int| 0 <= j < i ==> a@[j] == data@[j],
            forall|j: int| i <= j < N ==> a@[j] == 0u8,
        decreases n - i,
    {
        a[i] = data[i];
        i = i + 1;
    }
    assert(a@ =~= padded(data@, N as nat));
    a
}

/// The identifier as the driver carries it: bit 31 set for an extended one.
pub open spec fn wire_id(id: u32, is_extended: bool) -> u32 {
    if is_extended {
        id | 0x8000_0000u32
    } else {
        id
    }
}

/// The transmit event of a classic CAN frame: message tag, identifier,
/// data length code, the first eight data bytes (zero-filled); every other
/// field zero.
pub open spec fn is_can_tx_event(ev: XLevent, f: FrameView) -> bool {
    &&& ev.tag == XL_TRANSMIT_MSG
    &&& ev.chanIndex == 0 && ev.transId == 0 && ev.portHandle == 0
    &&& ev.flags == 0 && ev.reserved == 0 && ev.timeStamp == 0
    &&& ev.tagData.id == wire_id(f.id, f.is_extended)
    &&& ev.tagData.flags == 0
    &&& ev.tagData.dlc == f.dlc as u16
    &&& ev.tagData.res1 == 0 && ev.tagData.res2 == 0
    &&& ev.tagData.data@ == padded(f.data, 8)
}

/// The event that transmits a classic CAN frame.
pub fn can_tx_event(frame: &CanFrame) -> (ev: XLevent)
    ensures
        is_can_tx_event(ev, frame@),
{
    let id = if frame.is_extended {
        frame.id | 0x8000_0000
    } else {
        frame.id
    };
    let data: [u8; 8] = copy_padded(frame.data.as_slice());
    XLevent {
        tag: XL_TRANSMIT_MSG,
        chanIndex: 0,
        transId: 0,
        portHandle: 0,
        flags: 0,
        reserved: 0,
        timeStamp: 0,
        tagData: XLcanMsg { id, flags: 0, dlc: frame.dlc as u16, res1: 0, data, res2: 0 },
    }
}

/// The flags of a CAN FD frame to transmit: extended data length, and bit
/// rate switch when the frame asks for it.
pub open spec fn fd_tx_flags(is_brs: bool) -> u32 {
    if is_brs {
        XL_CAN_TXMSG_FLAG_EDL | XL_CAN_TXMSG_FLAG_BRS
    } else {
        XL_CAN_TXMSG_FLAG_EDL
    }
}

/// The message that transmits a CAN FD frame: identifier, flags, data
/// length code, the first 64 data bytes (zero-filled); reserved bytes zero.
pub fn canfd_tx_msg(frame: &CanFrame) -> (m: XLcanFdTxMsg)
    ensures
        m.canId == wire_id(frame.id, frame.is_extended),
        m.msgFlags == fd_tx_flags(frame.is_brs),
        m.msgFlags & XL_CAN_TXMSG_FLAG_EDL != 0,
        (m.msgFlags & XL_CAN_TXMSG_FLAG_BRS != 0) == frame.is_brs,
        m.dlc == frame.dlc,
        m.reserved1@ == zeros(7),
        m.data@ == padded(frame.data@, 64),
{
    let id = if frame.is_extended {
        frame.id | 0x8000_0000
    } else {
        frame.id
    };
    let flags = if frame.is_brs {
        XL_CAN_TXMSG_FLAG_EDL | XL_CAN_TXMSG_FLAG_BRS
    } else {
        XL_CAN_TXMSG_FLAG_EDL
    };
    assert(3u32 & 1u32 != 0 && 3u32 & 2u32 != 0 && 1u32 & 1u32 != 0 && 1u32 & 2u32 == 0
        && 1u32 | 2u32 == 3u32) by (bit_vector);
    assert(XL_CAN_TXMSG_FLAG_EDL == 1u32 && XL_CAN_TXMSG_FLAG_BRS == 2u32);
    let data: [u8; 64] = copy_padded(frame.data.as_slice());
    let reserved1: [u8; 7] = vstd::array::array_fill_for_copy_types(0u8);
    assert(reserved1@ =~= zeros(7));
    XLcanFdTxMsg { canId: id, msgFlags: flags, dlc: frame.dlc, reserved1, data }
}

/// The frame a classic receive event carries: `None` for another event
/// and for an error frame.
pub open spec fn event_frame(ev: XLevent) -> Option<FrameView> {
    let msg = ev.tagData;
    if ev.tag != XL_RECEIVE_MSG {
        None
    } else if msg.flags as u32 & XL_CAN_MSG_FLAG_ERROR_FRAME != 0 {
        None
    } else {
        let dlc = msg.dlc as u8;
        let n = if dlc < 8 {
            dlc as int
        } else {
            8
        };
        Some(
            classic_frame(
                time_from_ticks(ev.timeStamp),
                ev.chanIndex,
                msg.id & 0x1FFF_FFFFu32,
                msg.id & 0x8000_0000u32 != 0,
                dlc,
                msg.data@.take(n),
                if msg.flags as u32 & XL_CAN_MSG_FLAG_TX_COMPLETED != 0 {
                    Direction::Tx
                } else {
                    Direction::Rx
                },
            ),
        )
    }
}

/// The frame of a classic receive event, if it carries one.
pub fn frame_from_event(ev: &XLevent) -> (r: Option<CanFrame>)
    ensures
        match r {
            Some(f) => event_frame(*ev) == Some(f@),
            None => event_frame(*ev) is None,
        },
{
    let msg = &ev.tagData;
    if ev.tag != XL_RECEIVE_MSG {
        return None;
    }
    if msg.flags as u32 & XL_CAN_MSG_FLAG_ERROR_FRAME != 0 {
        return None;
    }
    let is_tx = msg.flags as u32 & XL_CAN_MSG_FLAG_TX_COMPLETED != 0;
    let direction = if is_tx {
        Direction::Tx
    } else {
        Direction::Rx
    };
    let dlc = msg.dlc as u8;
    let n: usize = if dlc < 8 {
        dlc as usize
    } else {
        8
    };
    let data = vstd::slice::slice_subrange(msg.data.as_slice(), 0, n);
    Some(
        CanFrame::new_can(
            time_from_u64(ev.timeStamp),
            ev.chanIndex,
            msg.id & 0x1FFF_FFFF,
            msg.id & 0x8000_0000 != 0,
            dlc,
            data,
            direction,
        ),
    )
}

/// The frame a CAN FD receive event carries: received and transmitted
/// messages only; a CAN FD frame when its flags say extended data length,
/// else a classic one of at most eight bytes.
pub open spec fn fd_event_frame(ev: XLcanFdEvent) -> Option<FrameView> {
    let msg = ev.tagData;
    if ev.tag != XL_CAN_EV_TAG_RX_OK && ev.tag != XL_CAN_EV_TAG_TX_OK {
        None
    } else {
        let direction = if ev.tag == XL_CAN_EV_TAG_TX_OK {
            Direction::Tx
        } else {
            Direction::Rx
        };
        let id = msg.id & 0x1FFF_FFFFu32;
        let is_extended = msg.id & 0x8000_0000u32 != 0;
        let n = dlc_len(msg.dlc) as int;
        if msg.flags & XL_CAN_RXMSG_FLAG_EDL != 0 {
            Some(
                fd_frame(
                    time_from_ticks(ev.timeStamp),
                    ev.chanIndex,
                    id,
                    is_extended,
                    msg.flags & XL_CAN_RXMSG_FLAG_BRS != 0,
                    msg.dlc,
                    msg.data@.take(n),
                    direction,
                ),
            )
        } else {
            Some(
                classic_frame(
                    time_from_ticks(ev.timeStamp),
                    ev.chanIndex,
                    id,
                    is_extended,
                    msg.dlc,
                    msg.data@.take(
                        if n < 8 {
                            n
                        } else {
                            8
                        },
                    ),
                    direction,
                ),
            )
        }
    }
}

/// The frame of a CAN FD receive event, if it carries one.
pub fn frame_from_fd_event(ev: &XLcanFdEvent) -> (r: Option<CanFrame>)
    ensures
        match r {
            Some(f) => fd_event_frame(*ev) == Some(f@),
            None => fd_event_frame(*ev) is None,
        },
{
    if ev.tag != XL_CAN_EV_TAG_RX_OK && ev.tag != XL_CAN_EV_TAG_TX_OK {
        return None;
    }
    let msg = &ev.tagData;
    let is_tx = ev.tag == XL_CAN_EV_TAG_TX_OK;
    let direction = if is_tx {
        Direction::Tx
    } else {
        Direction::Rx
    };
    let id = msg.id & 0x1FFF_FFFF;
    let is_extended = msg.id & 0x8000_0000 != 0;
    let is_fd = msg.flags & XL_CAN_RXMSG_FLAG_EDL != 0;
    let is_brs = msg.flags & XL_CAN_RXMSG_FLAG_BRS != 0;
    let dlc = msg.dlc;
    let len = dlc_to_len(dlc);
    if is_fd {
        let data = vstd::slice::slice_subrange(msg.data.as_slice(), 0, len);
        Some(CanFrame::new_canfd(time_from_u64(ev.timeStamp), ev.chanIndex, id, is_extended, is_brs, dlc, data, direction))
    } else {
        let n = if len < 8 {
            len
        } else {
            8
        };
        let data = vstd::slice::slice_subrange(msg.data.as_slice(), 0, n);
        Some(CanFrame::new_can(time_from_u64(ev.timeStamp), ev.chanIndex, id, is_extended, dlc, data, direction))
    }
}

} // verus!
