//! Vector XL Driver Library type definitions and the pure helpers around them.
use vstd::prelude::*;

verus! {

pub type XLstatus = i32;

pub type XLportHandle = i64;

pub type XLaccess = u64;

pub type XLhandle = u64;

// Status codes
pub const XL_SUCCESS: XLstatus = 0;

pub const XL_ERR_QUEUE_IS_EMPTY: XLstatus = 10;

pub const XL_ERR_QUEUE_IS_FULL: XLstatus = 11;

pub const XL_ERR_INVALID_CHAN_INDEX: XLstatus = 20;

pub const XL_ERR_INVALID_ACCESS: XLstatus = 21;

pub const XL_ERR_PORT_IS_OFFLINE: XLstatus = 22;

pub const XL_ERR_CHAN_IS_ONLINE: XLstatus = 23;

pub const XL_ERR_NOT_IMPLEMENTED: XLstatus = 32;

pub const XL_ERR_INVALID_PORT: XLstatus = 33;

pub const XL_ERR_HW_NOT_PRESENT: XLstatus = 129;

pub const XL_ERR_NOTIFY_ALREADY_ACTIVE: XLstatus = 131;

pub const XL_ERR_NO_RESOURCES: XLstatus = 152;

pub const XL_ERR_WRONG_CHIP_TYPE: XLstatus = 153;

pub const XL_ERR_WRONG_COMMAND: XLstatus = 154;

pub const XL_ERR_INVALID_HANDLE: XLstatus = 155;

pub const XL_ERR_CANNOT_OPEN_DRIVER: XLstatus = 201;

// Bus types
pub const XL_BUS_TYPE_CAN: u32 = 0x00000001;

// Interface types
pub const XL_HWTYPE_VIRTUAL: u32 = 1;

pub const XL_HWTYPE_CANCARDXL: u32 = 15;

pub const XL_HWTYPE_VN1610: u32 = 50;

pub const XL_HWTYPE_VN1630: u32 = 57;

pub const XL_HWTYPE_VN1640: u32 = 59;

pub const XL_HWTYPE_VN1670: u32 = 137;

// CAN message flags
pub const XL_CAN_MSG_FLAG_ERROR_FRAME: u32 = 0x01;

pub const XL_CAN_MSG_FLAG_OVERRUN: u32 = 0x02;

pub const XL_CAN_MSG_FLAG_NERR: u32 = 0x04;

pub const XL_CAN_MSG_FLAG_WAKEUP: u32 = 0x08;

pub const XL_CAN_MSG_FLAG_REMOTE_FRAME: u32 = 0x10;

pub const XL_CAN_MSG_FLAG_RESERVED_1: u32 = 0x20;

pub const XL_CAN_MSG_FLAG_TX_COMPLETED: u32 = 0x40;

pub const XL_CAN_MSG_FLAG_TX_REQUEST: u32 = 0x80;

// CAN FD transmit flags
pub const XL_CAN_TXMSG_FLAG_EDL: u32 = 0x0001;

pub const XL_CAN_TXMSG_FLAG_BRS: u32 = 0x0002;

// CAN FD receive flags
pub const XL_CAN_RXMSG_FLAG_EDL: u32 = 0x0001;

pub const XL_CAN_RXMSG_FLAG_BRS: u32 = 0x0002;

pub const XL_CAN_RXMSG_FLAG_ESI: u32 = 0x0004;

pub const XL_CAN_RXMSG_FLAG_EF: u32 = 0x0200;

// XL event tags
pub const XL_RECEIVE_MSG: u16 = 1;

pub const XL_CHIP_STATE: u16 = 4;

pub const XL_TRANSCEIVER: u16 = 6;

pub const XL_TIMER: u16 = 8;

pub const XL_TRANSMIT_MSG: u16 = 10;

// CAN FD event tags
pub const XL_CAN_EV_TAG_RX_OK: u16 = 0x0400;

pub const XL_CAN_EV_TAG_TX_OK: u16 = 0x0404;

pub const XL_CAN_EV_TAG_TX_ERROR: u16 = 0x040C;

pub const XL_CAN_EV_TAG_CHIP_STATE: u16 = 0x0409;

// Activate flags
pub const XL_ACTIVATE_NONE: u32 = 0;

pub const XL_ACTIVATE_RESET_CLOCK: u32 = 8;

// Size limits
pub const XL_MAX_APPNAME: usize = 32;

pub const XL_MAX_MSG_LEN: usize = 8;

pub const XL_CAN_MAX_DATA_LEN: usize = 64;

pub const XL_CONFIG_MAX_CHANNELS: usize = 64;

/// CAN bus parameters.
#[derive(Debug, Clone, Copy)]
pub struct XLbusParamsCan {
    pub bitRate: u32,
    pub sjw: u8,
    pub tseg1: u8,
    pub tseg2: u8,
    pub sam: u8,
    pub outputMode: u8,
    pub reserved: [u8; 7],
    pub canOpMode: u8,
}

/// Bus parameters of a channel; `data` holds the CAN member of the
/// driver's parameter union.
#[derive(Debug, Clone, Copy)]
pub struct XLbusParams {
    pub busType: u32,
    pub data: XLbusParamsCan,
}

/// Driver configuration of a single channel.
#[derive(Debug, Clone, Copy)]
pub struct XLchannelConfig {
    pub name: [u8; 32],
    pub hwType: u8,
    pub hwIndex: u8,
    pub hwChannel: u8,
    pub transceiverType: u16,
    pub transceiverState: u16,
    pub configError: u16,
    pub channelIndex: u8,
    pub channelMask: XLaccess,
    pub channelCapabilities: u32,
    pub channelBusCapabilities: u32,
    pub isOnBus: u8,
    pub connectedBusType: u32,
    pub busParams: XLbusParams,
    pub _doNotUse: u32,
    pub driverVersion: u32,
    pub interfaceVersion: u32,
    pub raw_data: [u32; 10],
    pub serialNumber: u32,
    pub articleNumber: u32,
    pub transceiverName: [u8; 32],
    pub specialCabFlags: u32,
    pub dominantTimeout: u32,
    pub dominantRecessiveDelay: u8,
    pub recessiveDominantDelay: u8,
    pub connectionInfo: u8,
    pub currentlyAvailableTimestamps: u8,
    pub minimalSupplyVoltage: u16,
    pub maximalSupplyVoltage: u16,
    pub maximalBaudrate: u32,
    pub fpgaCoreCapabilities: u8,
    pub specialDeviceStatus: u8,
    pub channelBusActiveCapabilities: u16,
    pub breakOffset: u16,
    pub delimiterOffset: u16,
    pub reserved: [u32; 3],
}

/// Driver configuration: the channels the driver reports.
#[derive(Debug, Clone)]
pub struct XLdriverConfig {
    pub dllVersion: u32,
    pub channelCount: u32,
    pub reserved: [u32; 10],
    pub channel: Vec<XLchannelConfig>,
}

/// Classic CAN message.
#[derive(Debug, Clone, Copy)]
pub struct XLcanMsg {
    pub id: u32,
    pub flags: u16,
    pub dlc: u16,
    pub res1: u64,
    pub data: [u8; 8],
    pub res2: u64,
}

/// Driver event; `tagData` holds the CAN message member of the event union.
#[derive(Debug, Clone, Copy)]
pub struct XLevent {
    pub tag: u16,
    pub chanIndex: u8,
    pub transId: u8,
    pub portHandle: u16,
    pub flags: u8,
    pub reserved: u8,
    pub timeStamp: u64,
    pub tagData: XLcanMsg,
}

/// Received CAN FD message.
#[derive(Debug, Clone, Copy)]
pub struct XLcanFdRxMsg {
    pub id: u32,
    pub flags: u32,
    pub dlc: u8,
    pub reserved1: [u8; 3],
    pub totalBitCnt: u16,
    pub reserved2: [u8; 2],
    pub data: [u8; 64],
}

/// CAN FD message to transmit.
#[derive(Debug, Clone, Copy)]
pub struct XLcanFdTxMsg {
    pub canId: u32,
    pub msgFlags: u32,
    pub dlc: u8,
    pub reserved1: [u8; 7],
    pub data: [u8; 64],
}

/// CAN FD driver event; `tagData` holds the received (or transmitted)
/// message member of the event union.
#[derive(Debug, Clone, Copy)]
pub struct XLcanFdEvent {
    pub tag: u16,
    pub chanIndex: u8,
    pub reserved1: [u8; 1],
    pub userHandle: u32,
    pub flagsChip: u16,
    pub reserved2: [u8; 2],
    pub timeStamp: u64,
    pub tagData: XLcanFdRxMsg,
}

/// CAN FD bit timing configuration.
#[derive(Debug, Clone, Copy)]
pub struct XLcanFdConf {
    pub arbitrationBitRate: u32,
    pub sjwAbr: u8,
    pub tseg1Abr: u8,
    pub tseg2Abr: u8,
    pub reserved1: u8,
    pub dataBitRate: u32,
    pub sjwDbr: u8,
    pub tseg1Dbr: u8,
    pub tseg2Dbr: u8,
    pub reserved2: u8,
    pub reserved3: u8,
    pub options: u8,
    pub reserved4: [u8; 2],
    pub reserved5: [u32; 4],
}

/// Payload length in bytes of a CAN FD data length code.
pub open spec fn dlc_len(dlc: u8) -> nat {
    if dlc <= 8 {
        dlc as nat
    } else if dlc == 9 {
        12
    } else if dlc == 10 {
        16
    } else if dlc == 11 {
        20
    } else if dlc == 12 {
        24
    } else if dlc == 13 {
        32
    } else if dlc == 14 {
        48
    } else if dlc == 15 {
        64
    } else {
        8
    }
}

/// Smallest data length code whose payload holds `len` bytes
/// (15 where no code is large enough).
pub open spec fn len_dlc(len: nat) -> u8 {
    if len <= 8 {
        len as u8
    } else if len <= 12 {
        9
    } else if len <= 16 {
        10
    } else if len <= 20 {
        11
    } else if len <= 24 {
        12
    } else if len <= 32 {
        13
    } else if len <= 48 {
        14
    } else {
        15
    }
}

/// Converts a data length code to a byte count (CAN FD table).
pub fn dlc_to_len(dlc: u8) -> (len: usize)
    ensures
        len == dlc_len(dlc),
{
    if dlc <= 8 {
        dlc as usize
    } else if dlc == 9 {
        12
    } else if dlc == 10 {
        16
    } else if dlc == 11 {
        20
    } else if dlc == 12 {
        24
    } else if dlc == 13 {
        32
    } else if dlc == 14 {
        48
    } else if dlc == 15 {
        64
    } else {
        8
    }
}

/// Converts a byte count to the data length code that carries it (CAN FD table).
pub fn len_to_dlc(len: usize) -> (dlc: u8)
    ensures
        dlc == len_dlc(len as nat),
{
    if len <= 8 {
        len as u8
    } else if len <= 12 {
        9
    } else if len <= 16 {
        10
    } else if len <= 20 {
        11
    } else if len <= 24 {
        12
    } else if len <= 32 {
        13
    } else if len <= 48 {
        14
    } else {
        15
    }
}

/// Every code from 0 to 15 survives the trip to a byte count and back.
pub proof fn lemma_dlc_len_roundtrip(dlc: u8)
    requires
        dlc <= 15,
    ensures
        len_dlc(dlc_len(dlc)) == dlc,
{
}

/// The code chosen for a payload of at most 64 bytes is the smallest
/// one whose payload holds it.
pub proof fn lemma_len_dlc_smallest(len: nat)
    requires
        len <= 64,
    ensures
        dlc_len(len_dlc(len)) >= len,
        len_dlc(len) <= 15,
        forall|d: u8| d < len_dlc(len) ==> dlc_len(d) < len,
{
}

/// Name of a driver status code.
pub open spec fn xl_status_name(status: XLstatus) -> &'static str {
    if status == XL_SUCCESS {
        "XL_SUCCESS"
    } else if status == XL_ERR_QUEUE_IS_EMPTY {
        "XL_ERR_QUEUE_IS_EMPTY"
    } else if status == XL_ERR_QUEUE_IS_FULL {
        "XL_ERR_QUEUE_IS_FULL"
    } else if status == XL_ERR_INVALID_CHAN_INDEX {
        "XL_ERR_INVALID_CHAN_INDEX"
    } else if status == XL_ERR_INVALID_ACCESS {
        "XL_ERR_INVALID_ACCESS"
    } else if status == XL_ERR_PORT_IS_OFFLINE {
        "XL_ERR_PORT_IS_OFFLINE"
    } else if status == XL_ERR_CHAN_IS_ONLINE {
        "XL_ERR_CHAN_IS_ONLINE"
    } else if status == XL_ERR_NOT_IMPLEMENTED {
        "XL_ERR_NOT_IMPLEMENTED"
    } else if status == XL_ERR_INVALID_PORT {
        "XL_ERR_INVALID_PORT"
    } else if status == XL_ERR_HW_NOT_PRESENT {
        "XL_ERR_HW_NOT_PRESENT"
    } else if status == XL_ERR_NO_RESOURCES {
        "XL_ERR_NO_RESOURCES"
    } else if status == XL_ERR_WRONG_CHIP_TYPE {
        "XL_ERR_WRONG_CHIP_TYPE"
    } else if status == XL_ERR_WRONG_COMMAND {
        "XL_ERR_WRONG_COMMAND"
    } else if status == XL_ERR_INVALID_HANDLE {
        "XL_ERR_INVALID_HANDLE"
    } else if status == XL_ERR_CANNOT_OPEN_DRIVER {
        "XL_ERR_CANNOT_OPEN_DRIVER"
    } else {
        "XL_ERR_UNKNOWN"
    }
}

/// Name of a driver status code, for messages.
pub fn xl_status_to_string(status: XLstatus) -> (name: &'static str)
    ensures
        name == xl_status_name(status),
{
    if status == XL_SUCCESS {
        "XL_SUCCESS"
    } else if status == XL_ERR_QUEUE_IS_EMPTY {
        "XL_ERR_QUEUE_IS_EMPTY"
    } else if status == XL_ERR_QUEUE_IS_FULL {
        "XL_ERR_QUEUE_IS_FULL"
    } else if status == XL_ERR_INVALID_CHAN_INDEX {
        "XL_ERR_INVALID_CHAN_INDEX"
    } else if status == XL_ERR_INVALID_ACCESS {
        "XL_ERR_INVALID_ACCESS"
    } else if status == XL_ERR_PORT_IS_OFFLINE {
        "XL_ERR_PORT_IS_OFFLINE"
    } else if status == XL_ERR_CHAN_IS_ONLINE {
        "XL_ERR_CHAN_IS_ONLINE"
    } else if status == XL_ERR_NOT_IMPLEMENTED {
        "XL_ERR_NOT_IMPLEMENTED"
    } else if status == XL_ERR_INVALID_PORT {
        "XL_ERR_INVALID_PORT"
    } else if status == XL_ERR_HW_NOT_PRESENT {
        "XL_ERR_HW_NOT_PRESENT"
    } else if status == XL_ERR_NO_RESOURCES {
        "XL_ERR_NO_RESOURCES"
    } else if status == XL_ERR_WRONG_CHIP_TYPE {
        "XL_ERR_WRONG_CHIP_TYPE"
    } else if status == XL_ERR_WRONG_COMMAND {
        "XL_ERR_WRONG_COMMAND"
    } else if status == XL_ERR_INVALID_HANDLE {
        "XL_ERR_INVALID_HANDLE"
    } else if status == XL_ERR_CANNOT_OPEN_DRIVER {
        "XL_ERR_CANNOT_OPEN_DRIVER"
    } else {
        "XL_ERR_UNKNOWN"
    }
}

} // verus!
