use cankoro::can::frame::{CanFrame, Direction};
use cankoro::i18n::{t, Locale};
use cankoro::ui::channel_config::{bitrates, fd_data_bitrates, format_bitrate, ChannelConfigState};
use cankoro::ui::log_view::{id_filter_value, row_visible, LogViewState};
use cankoro::ui::main_view::MainTab;
use cankoro::ui::panel_editor::{NewWidgetType, PanelEditorState};
use cankoro::ui::tx_config::{id_field, parse_id_field};
use cankoro::vector::channel::CanMode;
use cankoro::vector::driver::HwChannelInfo;

#[test]
fn translations() {
    assert_eq!(t(Locale::Japanese, "app.connect"), "接続");
    assert_eq!(t(Locale::English, "app.connect"), "Connect");
    assert_eq!(t(Locale::English, "graph.time_axis"), "Time [s]");
    assert_eq!(t(Locale::Japanese, "file.log_files"), "ログファイル");
    assert_eq!(t(Locale::Japanese, "no.such.key"), "no.such.key");
    assert_eq!(t(Locale::English, ""), "");
    assert_eq!(Locale::Japanese.label(), "日本語");
    assert_eq!(Locale::English.label(), "English");
    assert_eq!(Locale::all(), [Locale::Japanese, Locale::English]);
}

#[test]
fn both_languages_know_the_same_keys() {
    let keys = [
        "app.title", "app.name", "err.blf_open_error", "tab.panel_editor", "ch.transceiver",
        "log.tx", "graph.no_dbc", "tx.val", "panel.enabled", "file.tx_settings",
    ];
    for k in keys {
        assert_ne!(t(Locale::Japanese, k), k);
        assert_ne!(t(Locale::English, k), k);
    }
}

#[test]
fn tab_titles() {
    let titles: Vec<&str> = MainTab::all().iter().map(|t| t.label()).collect();
    assert_eq!(
        titles,
        vec!["Channel Config", "CAN Log", "Graph", "TX Config", "TX Panels", "Panel Editor"]
    );
}

#[test]
fn bitrate_texts() {
    assert_eq!(format_bitrate(500000), "500 kbit/s");
    assert_eq!(format_bitrate(1000000), "1 Mbit/s");
    assert_eq!(format_bitrate(33333), "33 kbit/s");
    assert_eq!(format_bitrate(999), "999 bit/s");
    assert_eq!(format_bitrate(0), "0 bit/s");
    assert_eq!(bitrates().len(), 11);
    assert_eq!(bitrates()[0], 10000);
    assert_eq!(fd_data_bitrates(), vec![500000, 1000000, 2000000, 4000000, 5000000, 8000000]);
}

#[test]
fn channel_state() {
    let mut s = ChannelConfigState::new();
    assert!(s.channels.is_empty());
    assert!(s.selected_dbc_path.is_none());
    let hw = |i: u32| HwChannelInfo {
        channel_index: i,
        channel_mask: 1 << i,
        hw_type: 1,
        hw_index: 0,
        hw_channel: i,
        name: format!("Ch{}", i),
        serial_number: 0,
        transceiver_name: String::new(),
        is_on_bus: false,
    };
    s.set_channels(vec![hw(0), hw(1)]);
    assert_eq!(s.channels.len(), 2);
    assert_eq!(s.channels[1].hw_info.name, "Ch1");
    assert!(!s.channels[0].enabled);
    assert_eq!(s.channels[0].mode, CanMode::Can);
    assert_eq!(s.channels[0].bitrate, 500000);
    assert_eq!(s.channels[0].data_bitrate, 2000000);
}

#[test]
fn panel_editor_defaults() {
    let p = PanelEditorState::new();
    assert!(p.editing_panel_index.is_none());
    assert_eq!(p.new_widget_type, NewWidgetType::Switch);
    assert_eq!(p.widget_counter, 0);
    let d = PanelEditorState::default();
    assert_eq!(d.widget_counter, 0);
}

#[test]
fn log_view_keeps_the_newest_frames() {
    let mut s = LogViewState::new();
    assert_eq!(s.max_frames, 50000);
    assert!(s.auto_scroll);
    s.max_frames = 3;
    for i in 0..5u32 {
        s.add_frame(CanFrame::new_can(i as i64, 0, i, false, 0, &[], Direction::Rx));
    }
    assert_eq!(s.total_count, 5);
    let ids: Vec<u32> = s.frames.iter().map(|f| f.id).collect();
    assert_eq!(ids, vec![2, 3, 4]);
    s.clear();
    assert!(s.frames.is_empty());
    assert_eq!(s.total_count, 0);
}

#[test]
fn log_view_filters() {
    assert_eq!(id_filter_value(""), None);
    assert_eq!(id_filter_value("1A"), Some(0x1A));
    assert_eq!(id_filter_value("0x1A"), Some(0x1A));
    assert_eq!(id_filter_value("0x0x7ff"), Some(0x7FF));
    assert_eq!(id_filter_value("0x"), None);
    assert_eq!(id_filter_value("xyz"), None);
    let f = CanFrame::new_can(0, 2, 0x100, false, 0, &[], Direction::Rx);
    assert!(row_visible(&f, None, None));
    assert!(row_visible(&f, Some(2), Some(0x100)));
    assert!(!row_visible(&f, Some(1), None));
    assert!(!row_visible(&f, None, Some(0x101)));
}

#[test]
fn identifier_fields() {
    assert_eq!(id_field(0x1), "001");
    assert_eq!(id_field(0x7FF), "7FF");
    assert_eq!(id_field(0x12345), "12345");
    assert_eq!(parse_id_field("7ff"), Some(0x7FF));
    assert_eq!(parse_id_field("FFFFFFFF"), Some(0xFFFF_FFFF));
    assert_eq!(parse_id_field("100000000"), None);
    assert_eq!(parse_id_field(""), None);
}

#[test]
fn log_view_add_frames_keeps_newest() {
    let mut s = LogViewState::new();
    s.max_frames = 4;
    s.add_frame(CanFrame::new_can(0, 0, 100, false, 0, &[], Direction::Rx));
    let batch: Vec<CanFrame> = (1..7u32)
        .map(|i| CanFrame::new_can(i as i64, 1, 100 + i, false, 1, &[i as u8], Direction::Tx))
        .collect();
    s.add_frames(batch);
    assert_eq!(s.total_count, 7);
    let ids: Vec<u32> = s.frames.iter().map(|f| f.id).collect();
    assert_eq!(ids, vec![103, 104, 105, 106]);
    assert_eq!(s.frames[3].data, vec![6u8]);
    assert_eq!(s.max_frames, 4);
}

#[test]
fn unknown_keys_come_back_in_both_languages() {
    assert_eq!(t(Locale::English, "no.such.key"), "no.such.key");
    assert_eq!(t(Locale::Japanese, "app.title2"), "app.title2");
    assert_ne!(t(Locale::English, "app.name"), "app.name");
    assert_ne!(t(Locale::Japanese, "app.name"), "app.name");
}
