//! What the driver structures built for sending a frame give back when the
//! driver reports them received, and what received events carry.
use vstd::prelude::*;

use crate::can::frame::{time_from_ticks, Direction, FrameView};
use crate::vector::channel::{
    event_frame, fd_event_frame, fd_tx_flags, is_can_tx_event, padded, wire_id,
};
use crate::vector::types::{
    dlc_len, XLcanFdEvent, XLevent, XL_CAN_EV_TAG_RX_OK, XL_CAN_EV_TAG_TX_OK,
    XL_CAN_MSG_FLAG_ERROR_FRAME, XL_CAN_MSG_FLAG_TX_COMPLETED, XL_CAN_RXMSG_FLAG_BRS,
    XL_CAN_RXMSG_FLAG_EDL, XL_CAN_TXMSG_FLAG_BRS, XL_CAN_TXMSG_FLAG_EDL, XL_RECEIVE_MSG,
};

verus! {

/// An identifier of at most 29 bits survives the wire: its low 29 bits
/// come back, and bit 31 tells whether it is extended.
pub proof fn lemma_wire_id_back(id: u32, is_extended: bool)
    requires
        id < 0x2000_0000,
    ensures
        wire_id(id, is_extended) & 0x1FFF_FFFFu32 == id,
        (wire_id(id, is_extended) & 0x8000_0000u32 != 0) == is_extended,
{
    assert(id & 0x1FFF_FFFFu32 == id && id & 0x8000_0000u32 == 0) by (bit_vector)
        requires
            id < 0x2000_0000u32,
    ;
    assert((id | 0x8000_0000u32) & 0x1FFF_FFFFu32 == id && (id | 0x8000_0000u32) & 0x8000_0000u32
        != 0) by (bit_vector)
        requires
            id < 0x2000_0000u32,
    ;
}

/// The frame of a classic receive event holds as many data bytes as its
/// data length code says, at most eight: the first ones of the message.
pub proof fn lemma_event_frame_data(ev: XLevent)
    requires
        event_frame(ev) is Some,
    ensures
        ({
            let f = event_frame(ev).unwrap();
            let dlc = ev.tagData.dlc as u8;
            &&& f.dlc == dlc
            &&& f.data.len() == (if dlc < 8 {
                dlc as nat
            } else {
                8
            })
            &&& f.data == ev.tagData.data@.subrange(0, f.data.len() as int)
            &&& !f.is_fd && !f.is_brs
        }),
{
}

/// A classic frame sent as its transmit event comes back unchanged from a
/// receive event carrying the same message (identifier, data length code,
/// data) that is no error frame: only the time, the channel and the
/// direction are the receive event's. It needs a frame whose identifier
/// fits in 29 bits and whose data are exactly as many bytes as its code
/// says, at most eight.
pub proof fn lemma_classic_echo(f: FrameView, tx: XLevent, rx: XLevent)
    requires
        is_can_tx_event(tx, f),
        !f.is_fd && !f.is_brs && !f.is_esi && !f.is_rtr,
        f.id < 0x2000_0000,
        f.data.len() == (if f.dlc < 8 {
            f.dlc as nat
        } else {
            8
        }),
        rx.tag == XL_RECEIVE_MSG,
        rx.tagData.id == tx.tagData.id,
        rx.tagData.dlc == tx.tagData.dlc,
        rx.tagData.data == tx.tagData.data,
        rx.tagData.flags as u32 & XL_CAN_MSG_FLAG_ERROR_FRAME == 0,
    ensures
        event_frame(rx) == Some(
            FrameView {
                timestamp_ns: time_from_ticks(rx.timeStamp),
                channel: rx.chanIndex,
                direction: if rx.tagData.flags as u32 & XL_CAN_MSG_FLAG_TX_COMPLETED != 0 {
                    Direction::Tx
                } else {
                    Direction::Rx
                },
                ..f
            },
        ),
{
    lemma_wire_id_back(f.id, f.is_extended);
    assert(rx.tagData.dlc as u8 == f.dlc);
    assert(padded(f.data, 8).take(f.data.len() as int) =~= f.data);
}

/// The flags of a CAN FD frame to send always say extended data length,
/// and say bit rate switch exactly when the frame asks for it.
pub proof fn lemma_fd_tx_flags(is_brs: bool)
    ensures
        fd_tx_flags(is_brs) & XL_CAN_TXMSG_FLAG_EDL != 0,
        (fd_tx_flags(is_brs) & XL_CAN_TXMSG_FLAG_BRS != 0) == is_brs,
{
    assert(3u32 & 1u32 != 0 && 3u32 & 2u32 != 0 && 1u32 & 1u32 != 0 && 1u32 & 2u32 == 0
        && 1u32 | 2u32 == 3u32) by (bit_vector);
}

/// The frame of a CAN FD receive event is a CAN FD frame exactly when the
/// message's extended data length flag is set; it has the bit rate switch
/// exactly when it is a CAN FD frame whose bit rate switch flag is set; and
/// it holds the data its code stands for (at most eight for a classic
/// frame): the first bytes of the message.
pub proof fn lemma_fd_event_flags(ev: XLcanFdEvent)
    requires
        fd_event_frame(ev) is Some,
    ensures
        ({
            let f = fd_event_frame(ev).unwrap();
            let msg = ev.tagData;
            let n = dlc_len(msg.dlc);
            &&& f.is_fd == (msg.flags & XL_CAN_RXMSG_FLAG_EDL != 0)
            &&& f.is_brs == (f.is_fd && msg.flags & XL_CAN_RXMSG_FLAG_BRS != 0)
            &&& !f.is_esi && !f.is_rtr
            &&& f.dlc == msg.dlc
            &&& f.data.len() == (if f.is_fd || n < 8 {
                n
            } else {
                8
            })
            &&& f.data == msg.data@.subrange(0, f.data.len() as int)
        }),
{
    assert(dlc_len(ev.tagData.dlc) <= 64);
}

/// A CAN FD frame sent as its transmit message comes back unchanged from
/// a CAN FD receive or transmit-confirmation event carrying the same
/// message (identifier, flags, data length code, data): only the time, the
/// channel and the direction are the event's. It needs a frame without
/// error state indicator or remote request, whose identifier fits in 29
/// bits and whose data are exactly the length its code stands for.
pub proof fn lemma_fd_echo(
    f: FrameView,
    can_id: u32,
    msg_flags: u32,
    dlc: u8,
    data: Seq<u8>,
    rx: XLcanFdEvent,
)
    requires
        f.is_fd && !f.is_esi && !f.is_rtr,
        f.id < 0x2000_0000,
        f.data.len() == dlc_len(f.dlc),
        can_id == wire_id(f.id, f.is_extended),
        msg_flags == fd_tx_flags(f.is_brs),
        dlc == f.dlc,
        data == padded(f.data, 64),
        rx.tag == XL_CAN_EV_TAG_RX_OK || rx.tag == XL_CAN_EV_TAG_TX_OK,
        rx.tagData.id == can_id,
        rx.tagData.flags == msg_flags,
        rx.tagData.dlc == dlc,
        rx.tagData.data@ == data,
    ensures
        fd_event_frame(rx) == Some(
            FrameView {
                timestamp_ns: time_from_ticks(rx.timeStamp),
                channel: rx.chanIndex,
                direction: if rx.tag == XL_CAN_EV_TAG_TX_OK {
                    Direction::Tx
                } else {
                    Direction::Rx
                },
                ..f
            },
        ),
{
    lemma_wire_id_back(f.id, f.is_extended);
    lemma_fd_tx_flags(f.is_brs);
    assert(XL_CAN_RXMSG_FLAG_EDL == XL_CAN_TXMSG_FLAG_EDL);
    assert(XL_CAN_RXMSG_FLAG_BRS == XL_CAN_TXMSG_FLAG_BRS);
    assert(dlc_len(f.dlc) <= 64);
    assert(padded(f.data, 64).take(f.data.len() as int) =~= f.data);
}

} // verus!
