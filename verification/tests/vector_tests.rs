use cankoro::can::frame::{CanFrame, Direction};
use cankoro::vector::channel::{
    access_mask_of, can_tx_event, canfd_tx_msg, fd_configuration, frame_from_event,
    frame_from_fd_event, interface_version, CanMode, ChannelConfig,
    channel_setup_plan, ChannelSetup,
};
use cankoro::vector::driver::{channel_info, channels_of, HwChannelInfo};
use cankoro::vector::types::{
    dlc_to_len, len_to_dlc, xl_status_to_string, XLbusParams, XLbusParamsCan, XLcanFdEvent,
    XLcanFdRxMsg, XLcanMsg, XLchannelConfig, XLdriverConfig, XLevent, XL_CAN_EV_TAG_RX_OK,
    XL_CAN_EV_TAG_TX_OK, XL_CAN_MSG_FLAG_ERROR_FRAME, XL_CAN_MSG_FLAG_TX_COMPLETED,
    XL_CAN_RXMSG_FLAG_BRS, XL_CAN_RXMSG_FLAG_EDL, XL_CAN_TXMSG_FLAG_BRS, XL_CAN_TXMSG_FLAG_EDL,
    XL_ERR_CANNOT_OPEN_DRIVER, XL_ERR_NOTIFY_ALREADY_ACTIVE, XL_ERR_QUEUE_IS_EMPTY,
    XL_HWTYPE_VIRTUAL, XL_HWTYPE_VN1630, XL_RECEIVE_MSG, XL_SUCCESS, XL_TRANSMIT_MSG,
};

#[test]
fn dlc_to_len_table() {
    let expected = [0usize, 1, 2, 3, 4, 5, 6, 7, 8, 12, 16, 20, 24, 32, 48, 64];
    for (dlc, len) in expected.iter().enumerate() {
        assert_eq!(dlc_to_len(dlc as u8), *len);
    }
    assert_eq!(dlc_to_len(16), 8);
    assert_eq!(dlc_to_len(255), 8);
}

#[test]
fn len_to_dlc_table() {
    assert_eq!(len_to_dlc(0), 0);
    assert_eq!(len_to_dlc(8), 8);
    assert_eq!(len_to_dlc(9), 9);
    assert_eq!(len_to_dlc(12), 9);
    assert_eq!(len_to_dlc(13), 10);
    assert_eq!(len_to_dlc(20), 11);
    assert_eq!(len_to_dlc(24), 12);
    assert_eq!(len_to_dlc(25), 13);
    assert_eq!(len_to_dlc(48), 14);
    assert_eq!(len_to_dlc(64), 15);
    assert_eq!(len_to_dlc(1000), 15);
}

#[test]
fn dlc_roundtrip_for_every_code() {
    for dlc in 0u8..16 {
        assert_eq!(len_to_dlc(dlc_to_len(dlc)), dlc);
    }
}

#[test]
fn status_names() {
    assert_eq!(xl_status_to_string(XL_SUCCESS), "XL_SUCCESS");
    assert_eq!(xl_status_to_string(XL_ERR_QUEUE_IS_EMPTY), "XL_ERR_QUEUE_IS_EMPTY");
    assert_eq!(xl_status_to_string(XL_ERR_CANNOT_OPEN_DRIVER), "XL_ERR_CANNOT_OPEN_DRIVER");
    assert_eq!(xl_status_to_string(XL_ERR_NOTIFY_ALREADY_ACTIVE), "XL_ERR_UNKNOWN");
    assert_eq!(xl_status_to_string(-7), "XL_ERR_UNKNOWN");
}

fn channel_config(
    name: &[u8],
    hw_type: u8,
    bus_caps: u32,
    connected: u32,
    mask: u64,
) -> XLchannelConfig {
    let mut n = [0u8; 32];
    n[..name.len()].copy_from_slice(name);
    let mut tr = [0u8; 32];
    tr[..6].copy_from_slice(b"TJA104");
    XLchannelConfig {
        name: n,
        hwType: hw_type,
        hwIndex: 2,
        hwChannel: 1,
        transceiverType: 0,
        transceiverState: 0,
        configError: 0,
        channelIndex: 3,
        channelMask: mask,
        channelCapabilities: 0,
        channelBusCapabilities: bus_caps,
        isOnBus: 1,
        connectedBusType: connected,
        busParams: XLbusParams {
            busType: 1,
            data: XLbusParamsCan {
                bitRate: 500000,
                sjw: 0,
                tseg1: 0,
                tseg2: 0,
                sam: 0,
                outputMode: 0,
                reserved: [0; 7],
                canOpMode: 0,
            },
        },
        _doNotUse: 0,
        driverVersion: 0,
        interfaceVersion: 0,
        raw_data: [0; 10],
        serialNumber: 12345,
        articleNumber: 0,
        transceiverName: tr,
        specialCabFlags: 0,
        dominantTimeout: 0,
        dominantRecessiveDelay: 0,
        recessiveDominantDelay: 0,
        connectionInfo: 0,
        currentlyAvailableTimestamps: 0,
        minimalSupplyVoltage: 0,
        maximalSupplyVoltage: 0,
        maximalBaudrate: 0,
        fpgaCoreCapabilities: 0,
        specialDeviceStatus: 0,
        channelBusActiveCapabilities: 0,
        breakOffset: 0,
        delimiterOffset: 0,
        reserved: [0; 3],
    }
}

#[test]
fn channel_info_lists_can_and_virtual_channels() {
    let physical = channel_config(b"VN1630 Channel 1", XL_HWTYPE_VN1630 as u8, 1, 0, 0x1);
    let info = channel_info(&physical).expect("CAN-capable channel is listed");
    assert_eq!(info.name, "VN1630 Channel 1");
    assert_eq!(info.transceiver_name, "TJA104");
    assert_eq!(info.channel_index, 3);
    assert_eq!(info.channel_mask, 0x1);
    assert_eq!(info.hw_type, XL_HWTYPE_VN1630);
    assert_eq!(info.hw_index, 2);
    assert_eq!(info.hw_channel, 1);
    assert_eq!(info.serial_number, 12345);
    assert!(info.is_on_bus);
    assert_eq!(info.hw_type_name(), "VN1630");
    assert!(!info.is_virtual());

    let virtual_ch = channel_config(b"Virtual Channel 1", XL_HWTYPE_VIRTUAL as u8, 0, 0, 0x2);
    let v = channel_info(&virtual_ch).expect("virtual channel is listed");
    assert!(v.is_virtual());
    assert_eq!(v.hw_type_name(), "Virtual");

    let connected = channel_config(b"X", 99, 0, 1, 0x4);
    assert!(channel_info(&connected).is_some());

    let lin_only = channel_config(b"LIN", XL_HWTYPE_VN1630 as u8, 2, 2, 0x8);
    assert!(channel_info(&lin_only).is_none());
}

#[test]
fn hw_type_names() {
    let mut info = HwChannelInfo {
        channel_index: 0,
        channel_mask: 0,
        hw_type: 15,
        hw_index: 0,
        hw_channel: 0,
        name: String::new(),
        serial_number: 0,
        transceiver_name: String::new(),
        is_on_bus: false,
    };
    assert_eq!(info.hw_type_name(), "CANcardXL");
    info.hw_type = 50;
    assert_eq!(info.hw_type_name(), "VN1610");
    info.hw_type = 59;
    assert_eq!(info.hw_type_name(), "VN1640");
    info.hw_type = 137;
    assert_eq!(info.hw_type_name(), "VN1670");
    info.hw_type = 2;
    assert_eq!(info.hw_type_name(), "Unknown");
}

#[test]
fn channels_of_keeps_order_and_count() {
    let chans = vec![
        channel_config(b"A", XL_HWTYPE_VN1630 as u8, 1, 0, 1),
        channel_config(b"B", XL_HWTYPE_VN1630 as u8, 2, 2, 2),
        channel_config(b"C", XL_HWTYPE_VIRTUAL as u8, 0, 0, 4),
        channel_config(b"D", XL_HWTYPE_VN1630 as u8, 1, 0, 8),
    ];
    let config = XLdriverConfig { dllVersion: 0, channelCount: 3, reserved: [0; 10], channel: chans };
    let listed = channels_of(&config);
    let names: Vec<&str> = listed.iter().map(|c| c.name.as_str()).collect();
    assert_eq!(names, vec!["A", "C"]);
}

#[test]
fn channel_config_defaults_and_masks() {
    let d = ChannelConfig::default();
    assert_eq!(d.channel_mask, 0);
    assert_eq!(d.mode, CanMode::Can);
    assert_eq!(d.bitrate, 500000);
    assert_eq!(d.data_bitrate, 2000000);
    let cfgs = vec![
        ChannelConfig { channel_mask: 0x1, ..ChannelConfig::default() },
        ChannelConfig { channel_mask: 0x4, ..ChannelConfig::default() },
    ];
    assert_eq!(access_mask_of(&cfgs), 0x5);
    assert_eq!(access_mask_of(&[]), 0);
    assert_eq!(interface_version(CanMode::Can), 3);
    assert_eq!(interface_version(CanMode::CanFd), 4);
    let fd = fd_configuration(&ChannelConfig {
        channel_mask: 1,
        mode: CanMode::CanFd,
        bitrate: 250000,
        data_bitrate: 4000000,
    });
    assert_eq!({ fd.arbitrationBitRate }, 250000);
    assert_eq!({ fd.dataBitRate }, 4000000);
}

#[test]
fn transmit_structures() {
    let f = CanFrame::new_can(0, 0, 0x123, true, 3, &[1, 2, 3], Direction::Tx);
    let ev = can_tx_event(&f);
    assert_eq!(ev.tag, XL_TRANSMIT_MSG);
    assert_eq!(ev.tagData.id, 0x8000_0123);
    assert_eq!(ev.tagData.dlc, 3);
    assert_eq!(ev.tagData.data, [1, 2, 3, 0, 0, 0, 0, 0]);

    let data: Vec<u8> = (0..70).map(|i| i as u8).collect();
    let fd = CanFrame::new_canfd(0, 0, 0x10, false, true, 15, &data, Direction::Tx);
    let m = canfd_tx_msg(&fd);
    assert_eq!(m.canId, 0x10);
    assert_eq!(m.msgFlags, XL_CAN_TXMSG_FLAG_EDL | XL_CAN_TXMSG_FLAG_BRS);
    assert_eq!(m.dlc, 15);
    assert_eq!(m.data[63], 63);
}

#[test]
fn receive_events() {
    let msg = XLcanMsg {
        id: 0x8000_0456,
        flags: XL_CAN_MSG_FLAG_TX_COMPLETED as u16,
        dlc: 10,
        res1: 0,
        data: [9, 8, 7, 6, 5, 4, 3, 2],
        res2: 0,
    };
    let ev = XLevent {
        tag: XL_RECEIVE_MSG,
        chanIndex: 1,
        transId: 0,
        portHandle: 0,
        flags: 0,
        reserved: 0,
        timeStamp: 1_500_000_000,
        tagData: msg,
    };
    let f = frame_from_event(&ev).expect("a received message");
    assert_eq!(f.id, 0x456);
    assert!(f.is_extended);
    assert_eq!(f.direction, Direction::Tx);
    assert_eq!(f.channel, 1);
    assert_eq!(f.dlc, 10);
    assert_eq!(f.data, vec![9, 8, 7, 6, 5, 4, 3, 2]);
    assert_eq!(f.timestamp_ns, 1_500_000_000);

    let mut err = ev;
    err.tagData.flags = XL_CAN_MSG_FLAG_ERROR_FRAME as u16;
    assert!(frame_from_event(&err).is_none());
    let mut other = ev;
    other.tag = XL_TRANSMIT_MSG;
    assert!(frame_from_event(&other).is_none());

    let mut data = [0u8; 64];
    for (i, b) in data.iter_mut().enumerate() {
        *b = i as u8;
    }
    let rx = XLcanFdRxMsg {
        id: 0x7FF,
        flags: XL_CAN_RXMSG_FLAG_EDL | XL_CAN_RXMSG_FLAG_BRS,
        dlc: 9,
        reserved1: [0; 3],
        totalBitCnt: 0,
        reserved2: [0; 2],
        data,
    };
    let fev = XLcanFdEvent {
        tag: XL_CAN_EV_TAG_RX_OK,
        chanIndex: 2,
        reserved1: [0],
        userHandle: 0,
        flagsChip: 0,
        reserved2: [0; 2],
        timeStamp: 42,
        tagData: rx,
    };
    let ff = frame_from_fd_event(&fev).expect("an FD frame");
    assert!(ff.is_fd);
    assert!(ff.is_brs);
    assert_eq!(ff.data.len(), 12);
    assert_eq!(ff.direction, Direction::Rx);
    let mut classic = fev;
    classic.tag = XL_CAN_EV_TAG_TX_OK;
    classic.tagData.flags = 0;
    let cf = frame_from_fd_event(&classic).expect("a classic frame");
    assert!(!cf.is_fd);
    assert_eq!(cf.data.len(), 8);
    assert_eq!(cf.direction, Direction::Tx);
    let mut ignored = fev;
    ignored.tag = 0x0409;
    assert!(frame_from_fd_event(&ignored).is_none());
}

#[test]
fn channel_setup_plan_follows_the_permission_mask() {
    let cfgs = vec![
        ChannelConfig { channel_mask: 0x1, bitrate: 250000, ..ChannelConfig::default() },
        ChannelConfig {
            channel_mask: 0x2,
            mode: CanMode::CanFd,
            bitrate: 1000000,
            data_bitrate: 5000000,
        },
        ChannelConfig { channel_mask: 0x4, ..ChannelConfig::default() },
    ];
    let plan = channel_setup_plan(0x3, &cfgs);
    assert_eq!(plan.len(), 2);
    match &plan[0] {
        ChannelSetup::Bitrate { channel_mask, bitrate } => {
            assert_eq!(*channel_mask, 0x1);
            assert_eq!(*bitrate, 250000);
        }
        _ => panic!("classic channel set up with CAN FD timing"),
    }
    match &plan[1] {
        ChannelSetup::FdConfiguration { channel_mask, conf } => {
            assert_eq!(*channel_mask, 0x2);
            assert_eq!({ conf.arbitrationBitRate }, 1000000);
            assert_eq!({ conf.dataBitRate }, 5000000);
        }
        _ => panic!("CAN FD channel set up with a bit rate only"),
    }
    assert!(channel_setup_plan(0, &cfgs).is_empty());
}
