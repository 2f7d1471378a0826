//! Japanese and English texts of the user interface, looked up by key.
use vstd::prelude::*;

use crate::text::str_eq;

verus! {

/// A language of the user interface.
#[derive(Debug, Clone, Copy, PartialEq, Eq, Structural)]
pub enum Locale {
    Japanese,
    English,
}

impl Locale {
    /// The name of the language, written in that language.
    pub fn label(&self) -> (s: &'static str)
        ensures
            s@ == (match *self {
                Locale::Japanese => "日本語"@,
                Locale::English => "English"@,
            }),
    {
        match self {
            Locale::Japanese => "日本語",
            Locale::English => "English",
        }
    }

    /// Every language, Japanese (the default) first.
    pub fn all() -> (v: [Locale; 2])
        ensures
            v@ == seq![Locale::Japanese, Locale::English],
    {
        let v = [Locale::Japanese, Locale::English];
        assert(v@ =~= seq![Locale::Japanese, Locale::English]);
        v
    }
}

/// The text of `key` in `locale`; an unknown key is its own text.
pub open spec fn text_for(locale: Locale, key: Seq<char>) -> Seq<char> {
    match locale {
        Locale::Japanese => ja_text(key),
        Locale::English => en_text(key),
    }
}

/// Translates `key` into `locale`; an unknown key comes back unchanged.
pub fn t<'a>(locale: Locale, key: &'a str) -> (r: &'a str)
    ensures
        r@ == text_for(locale, key@),
{
    match locale {
        Locale::Japanese => t_ja(key),
        Locale::English => t_en(key),
    }
}

/// Whether `key` is one of the keys the user interface has texts for.
pub open spec fn translated(key: Seq<char>) -> bool {
    ||| key == "app.title"@
    ||| key == "app.name"@
    ||| key == "app.connect"@
    ||| key == "app.disconnect"@
    ||| key == "app.start_logging"@
    ||| key == "app.stop_logging"@
    ||| key == "app.connected"@
    ||| key == "app.disconnected"@
    ||| key == "app.rec"@
    ||| key == "app.language"@
    ||| key == "err.driver_not_available"@
    ||| key == "err.no_channels_enabled"@
    ||| key == "err.activate_failed"@
    ||| key == "err.open_port_failed"@
    ||| key == "err.dbc_load_error"@
    ||| key == "err.blf_open_error"@
    ||| key == "err.asc_open_error"@
    ||| key == "tab.channel_config"@
    ||| key == "tab.can_log"@
    ||| key == "tab.graph"@
    ||| key == "tab.tx_config"@
    ||| key == "tab.tx_panels"@
    ||| key == "tab.panel_editor"@
    ||| key == "ch.title"@
    ||| key == "ch.dbc_file"@
    ||| key == "ch.none"@
    ||| key == "ch.browse"@
    ||| key == "ch.no_channels"@
    ||| key == "ch.mode"@
    ||| key == "ch.can"@
    ||| key == "ch.can_fd"@
    ||| key == "ch.bitrate"@
    ||| key == "ch.data_bitrate"@
    ||| key == "ch.transceiver"@
    ||| key == "log.title"@
    ||| key == "log.total"@
    ||| key == "log.displayed"@
    ||| key == "log.auto_scroll"@
    ||| key == "log.pause"@
    ||| key == "log.resume"@
    ||| key == "log.clear"@
    ||| key == "log.id_filter"@
    ||| key == "log.timestamp"@
    ||| key == "log.channel"@
    ||| key == "log.direction"@
    ||| key == "log.id"@
    ||| key == "log.dlc"@
    ||| key == "log.fd"@
    ||| key == "log.brs"@
    ||| key == "log.data"@
    ||| key == "log.rx"@
    ||| key == "log.tx"@
    ||| key == "graph.title"@
    ||| key == "graph.realtime"@
    ||| key == "graph.playback"@
    ||| key == "graph.select_signals"@
    ||| key == "graph.fit_all"@
    ||| key == "graph.auto_scroll"@
    ||| key == "graph.c1"@
    ||| key == "graph.c2"@
    ||| key == "graph.diff"@
    ||| key == "graph.clear_data"@
    ||| key == "graph.load_log"@
    ||| key == "graph.play"@
    ||| key == "graph.pause"@
    ||| key == "graph.stop"@
    ||| key == "graph.speed"@
    ||| key == "graph.frame"@
    ||| key == "graph.cursor_analysis"@
    ||| key == "graph.signal"@
    ||| key == "graph.c1_value"@
    ||| key == "graph.c2_value"@
    ||| key == "graph.delta"@
    ||| key == "graph.unit"@
    ||| key == "graph.signal_selection"@
    ||| key == "graph.no_dbc"@
    ||| key == "graph.time_axis"@
    ||| key == "tx.title"@
    ||| key == "tx.save"@
    ||| key == "tx.load"@
    ||| key == "tx.forward_config"@
    ||| key == "tx.add_forward"@
    ||| key == "tx.rx_channel"@
    ||| key == "tx.tx_channel"@
    ||| key == "tx.trapezoidal"@
    ||| key == "tx.add_trapezoidal"@
    ||| key == "tx.message_id"@
    ||| key == "tx.signal"@
    ||| key == "tx.signal_name"@
    ||| key == "tx.initial_value"@
    ||| key == "tx.max_value"@
    ||| key == "tx.rate"@
    ||| key == "tx.hold_time"@
    ||| key == "tx.cycle_time"@
    ||| key == "tx.repeat"@
    ||| key == "tx.enable"@
    ||| key == "tx.signal_modifications"@
    ||| key == "tx.add_modification"@
    ||| key == "tx.msg"@
    ||| key == "tx.sig"@
    ||| key == "tx.val"@
    ||| key == "panel.title"@
    ||| key == "panel.new"@
    ||| key == "panel.name"@
    ||| key == "panel.add_widget"@
    ||| key == "panel.switch"@
    ||| key == "panel.value_box"@
    ||| key == "panel.select_box"@
    ||| key == "panel.label"@
    ||| key == "panel.add"@
    ||| key == "panel.label_field"@
    ||| key == "panel.on_action"@
    ||| key == "panel.off_action"@
    ||| key == "panel.message"@
    ||| key == "panel.msg_id"@
    ||| key == "panel.value"@
    ||| key == "panel.text"@
    ||| key == "panel.font_size"@
    ||| key == "panel.options"@
    ||| key == "panel.new_option"@
    ||| key == "panel.add_option"@
    ||| key == "panel.enabled"@
    ||| key == "file.asc"@
    ||| key == "file.blf"@
    ||| key == "file.dbc"@
    ||| key == "file.tx_settings"@
    ||| key == "file.log_files"@
}

/// The Japanese text of `key`, or `key` itself when it has none.
pub open spec fn ja_text(key: Seq<char>) -> Seq<char> {
    if key == "app.title"@ {
        "CANkoro - CAN/CAN-FD 解析ツール"@
    } else if key == "app.name"@ {
        "CANkoro"@
    } else if key == "app.connect"@ {
        "接続"@
    } else if key == "app.disconnect"@ {
        "切断"@
    } else if key == "app.start_logging"@ {
        "ログ開始"@
    } else if key == "app.stop_logging"@ {
        "ログ停止"@
    } else if key == "app.connected"@ {
        "接続済み"@
    } else if key == "app.disconnected"@ {
        "未接続"@
    } else if key == "app.rec"@ {
        "REC"@
    } else if key == "app.language"@ {
        "言語"@
    } else if key == "err.driver_not_available"@ {
        "Vectorドライバーが利用できません"@
    } else if key == "err.no_channels_enabled"@ {
        "チャンネルが有効になっていません"@
    } else if key == "err.activate_failed"@ {
        "アクティベート失敗"@
    } else if key == "err.open_port_failed"@ {
        "ポートオープン失敗"@
    } else if key == "err.dbc_load_error"@ {
        "DBCロードエラー"@
    } else if key == "err.blf_open_error"@ {
        "BLFオープンエラー"@
    } else if key == "err.asc_open_error"@ {
        "ASCオープンエラー"@
    } else if key == "tab.channel_config"@ {
        "チャンネル設定"@
    } else if key == "tab.can_log"@ {
        "CANログ"@
    } else if key == "tab.graph"@ {
        "グラフ"@
    } else if key == "tab.tx_config"@ {
        "送信設定"@
    } else if key == "tab.tx_panels"@ {
        "送信パネル"@
    } else if key == "tab.panel_editor"@ {
        "パネルエディタ"@
    } else if key == "ch.title"@ {
        "チャンネル設定"@
    } else if key == "ch.dbc_file"@ {
        "DBCファイル:"@
    } else if key == "ch.none"@ {
        "(なし)"@
    } else if key == "ch.browse"@ {
        "参照..."@
    } else if key == "ch.no_channels"@ {
        "CANチャンネルが検出されませんでした。Vectorハードウェアの接続を確認してください。"@
    } else if key == "ch.mode"@ {
        "モード:"@
    } else if key == "ch.can"@ {
        "CAN"@
    } else if key == "ch.can_fd"@ {
        "CAN FD"@
    } else if key == "ch.bitrate"@ {
        "ビットレート:"@
    } else if key == "ch.data_bitrate"@ {
        "データビットレート:"@
    } else if key == "ch.transceiver"@ {
        "トランシーバー:"@
    } else if key == "log.title"@ {
        "CANログ"@
    } else if key == "log.total"@ {
        "合計"@
    } else if key == "log.displayed"@ {
        "表示"@
    } else if key == "log.auto_scroll"@ {
        "自動スクロール"@
    } else if key == "log.pause"@ {
        "一時停止"@
    } else if key == "log.resume"@ {
        "再開"@
    } else if key == "log.clear"@ {
        "クリア"@
    } else if key == "log.id_filter"@ {
        "IDフィルタ:"@
    } else if key == "log.timestamp"@ {
        "タイムスタンプ"@
    } else if key == "log.channel"@ {
        "Ch"@
    } else if key == "log.direction"@ {
        "方向"@
    } else if key == "log.id"@ {
        "ID"@
    } else if key == "log.dlc"@ {
        "DLC"@
    } else if key == "log.fd"@ {
        "FD"@
    } else if key == "log.brs"@ {
        "BRS"@
    } else if key == "log.data"@ {
        "データ"@
    } else if key == "log.rx"@ {
        "Rx"@
    } else if key == "log.tx"@ {
        "Tx"@
    } else if key == "graph.title"@ {
        "シグナルグラフ"@
    } else if key == "graph.realtime"@ {
        "リアルタイム"@
    } else if key == "graph.playback"@ {
        "再生"@
    } else if key == "graph.select_signals"@ {
        "シグナル選択"@
    } else if key == "graph.fit_all"@ {
        "全体表示"@
    } else if key == "graph.auto_scroll"@ {
        "自動スクロール"@
    } else if key == "graph.c1"@ {
        "C1"@
    } else if key == "graph.c2"@ {
        "C2"@
    } else if key == "graph.diff"@ {
        "差分"@
    } else if key == "graph.clear_data"@ {
        "データクリア"@
    } else if key == "graph.load_log"@ {
        "ログ読込"@
    } else if key == "graph.play"@ {
        "再生"@
    } else if key == "graph.pause"@ {
        "一時停止"@
    } else if key == "graph.stop"@ {
        "停止"@
    } else if key == "graph.speed"@ {
        "速度:"@
    } else if key == "graph.frame"@ {
        "フレーム"@
    } else if key == "graph.cursor_analysis"@ {
        "カーソル解析"@
    } else if key == "graph.signal"@ {
        "シグナル"@
    } else if key == "graph.c1_value"@ {
        "C1値"@
    } else if key == "graph.c2_value"@ {
        "C2値"@
    } else if key == "graph.delta"@ {
        "差分"@
    } else if key == "graph.unit"@ {
        "単位"@
    } else if key == "graph.signal_selection"@ {
        "シグナル選択"@
    } else if key == "graph.no_dbc"@ {
        "DBCファイルが読み込まれていません。先にDBCファイルを読み込んでください。"@
    } else if key == "graph.time_axis"@ {
        "時間 [s]"@
    } else if key == "tx.title"@ {
        "送信設定"@
    } else if key == "tx.save"@ {
        "設定を保存"@
    } else if key == "tx.load"@ {
        "設定を読込"@
    } else if key == "tx.forward_config"@ {
        "転送設定"@
    } else if key == "tx.add_forward"@ {
        "転送を追加"@
    } else if key == "tx.rx_channel"@ {
        "受信チャンネル:"@
    } else if key == "tx.tx_channel"@ {
        "送信チャンネル:"@
    } else if key == "tx.trapezoidal"@ {
        "台形波"@
    } else if key == "tx.add_trapezoidal"@ {
        "台形波を追加"@
    } else if key == "tx.message_id"@ {
        "メッセージID (16進):"@
    } else if key == "tx.signal"@ {
        "シグナル:"@
    } else if key == "tx.signal_name"@ {
        "シグナル名:"@
    } else if key == "tx.initial_value"@ {
        "初期値:"@
    } else if key == "tx.max_value"@ {
        "最大値:"@
    } else if key == "tx.rate"@ {
        "変化率 (値/秒):"@
    } else if key == "tx.hold_time"@ {
        "保持時間 (ms):"@
    } else if key == "tx.cycle_time"@ {
        "周期 (ms):"@
    } else if key == "tx.repeat"@ {
        "繰り返し"@
    } else if key == "tx.enable"@ {
        "有効"@
    } else if key == "tx.signal_modifications"@ {
        "シグナル変更"@
    } else if key == "tx.add_modification"@ {
        "変更を追加"@
    } else if key == "tx.msg"@ {
        "Msg:"@
    } else if key == "tx.sig"@ {
        "Sig:"@
    } else if key == "tx.val"@ {
        "値:"@
    } else if key == "panel.title"@ {
        "パネルエディタ"@
    } else if key == "panel.new"@ {
        "新規パネル"@
    } else if key == "panel.name"@ {
        "パネル名:"@
    } else if key == "panel.add_widget"@ {
        "ウィジェット追加:"@
    } else if key == "panel.switch"@ {
        "スイッチ"@
    } else if key == "panel.value_box"@ {
        "数値ボックス"@
    } else if key == "panel.select_box"@ {
        "セレクトボックス"@
    } else if key == "panel.label"@ {
        "ラベル"@
    } else if key == "panel.add"@ {
        "追加"@
    } else if key == "panel.label_field"@ {
        "ラベル:"@
    } else if key == "panel.on_action"@ {
        "ONアクション"@
    } else if key == "panel.off_action"@ {
        "OFFアクション"@
    } else if key == "panel.message"@ {
        "メッセージ:"@
    } else if key == "panel.msg_id"@ {
        "Msg ID:"@
    } else if key == "panel.value"@ {
        "値:"@
    } else if key == "panel.text"@ {
        "テキスト:"@
    } else if key == "panel.font_size"@ {
        "フォントサイズ:"@
    } else if key == "panel.options"@ {
        "オプション:"@
    } else if key == "panel.new_option"@ {
        "新規オプション"@
    } else if key == "panel.add_option"@ {
        "+ オプション"@
    } else if key == "panel.enabled"@ {
        "有効"@
    } else if key == "file.asc"@ {
        "ASCファイル"@
    } else if key == "file.blf"@ {
        "BLFファイル"@
    } else if key == "file.dbc"@ {
        "DBCファイル"@
    } else if key == "file.tx_settings"@ {
        "送信設定"@
    } else if key == "file.log_files"@ {
        "ログファイル"@
    } else {
        key
    }
}

/// The English text of `key`, or `key` itself when it has none.
pub open spec fn en_text(key: Seq<char>) -> Seq<char> {
    if key == "app.title"@ {
        "CANkoro - CAN/CAN-FD Analysis Tool"@
    } else if key == "app.name"@ {
        "CANkoro"@
    } else if key == "app.connect"@ {
        "Connect"@
    } else if key == "app.disconnect"@ {
        "Disconnect"@
    } else if key == "app.start_logging"@ {
        "Start Logging"@
    } else if key == "app.stop_logging"@ {
        "Stop Logging"@
    } else if key == "app.connected"@ {
        "Connected"@
    } else if key == "app.disconnected"@ {
        "Disconnected"@
    } else if key == "app.rec"@ {
        "REC"@
    } else if key == "app.language"@ {
        "Language"@
    } else if key == "err.driver_not_available"@ {
        "Vector driver not available"@
    } else if key == "err.no_channels_enabled"@ {
        "No channels enabled"@
    } else if key == "err.activate_failed"@ {
        "Activate failed"@
    } else if key == "err.open_port_failed"@ {
        "Open port failed"@
    } else if key == "err.dbc_load_error"@ {
        "DBC load error"@
    } else if key == "err.blf_open_error"@ {
        "BLF open error"@
    } else if key == "err.asc_open_error"@ {
        "ASC open error"@
    } else if key == "tab.channel_config"@ {
        "Channel Config"@
    } else if key == "tab.can_log"@ {
        "CAN Log"@
    } else if key == "tab.graph"@ {
        "Graph"@
    } else if key == "tab.tx_config"@ {
        "TX Config"@
    } else if key == "tab.tx_panels"@ {
        "TX Panels"@
    } else if key == "tab.panel_editor"@ {
        "Panel Editor"@
    } else if key == "ch.title"@ {
        "Channel Configuration"@
    } else if key == "ch.dbc_file"@ {
        "DBC File:"@
    } else if key == "ch.none"@ {
        "(None)"@
    } else if key == "ch.browse"@ {
        "Browse..."@
    } else if key == "ch.no_channels"@ {
        "No CAN channels detected. Please check Vector hardware connection."@
    } else if key == "ch.mode"@ {
        "Mode:"@
    } else if key == "ch.can"@ {
        "CAN"@
    } else if key == "ch.can_fd"@ {
        "CAN FD"@
    } else if key == "ch.bitrate"@ {
        "Bitrate:"@
    } else if key == "ch.data_bitrate"@ {
        "Data Bitrate:"@
    } else if key == "ch.transceiver"@ {
        "Transceiver:"@
    } else if key == "log.title"@ {
        "CAN Log"@
    } else if key == "log.total"@ {
        "Total"@
    } else if key == "log.displayed"@ {
        "Displayed"@
    } else if key == "log.auto_scroll"@ {
        "Auto-scroll"@
    } else if key == "log.pause"@ {
        "Pause"@
    } else if key == "log.resume"@ {
        "Resume"@
    } else if key == "log.clear"@ {
        "Clear"@
    } else if key == "log.id_filter"@ {
        "ID Filter:"@
    } else if key == "log.timestamp"@ {
        "Timestamp"@
    } else if key == "log.channel"@ {
        "Ch"@
    } else if key == "log.direction"@ {
        "Dir"@
    } else if key == "log.id"@ {
        "ID"@
    } else if key == "log.dlc"@ {
        "DLC"@
    } else if key == "log.fd"@ {
        "FD"@
    } else if key == "log.brs"@ {
        "BRS"@
    } else if key == "log.data"@ {
        "Data"@
    } else if key == "log.rx"@ {
        "Rx"@
    } else if key == "log.tx"@ {
        "Tx"@
    } else if key == "graph.title"@ {
        "Signal Graph"@
    } else if key == "graph.realtime"@ {
        "Realtime"@
    } else if key == "graph.playback"@ {
        "Playback"@
    } else if key == "graph.select_signals"@ {
        "Select Signals"@
    } else if key == "graph.fit_all"@ {
        "Fit All"@
    } else if key == "graph.auto_scroll"@ {
        "Auto-scroll"@
    } else if key == "graph.c1"@ {
        "C1"@
    } else if key == "graph.c2"@ {
        "C2"@
    } else if key == "graph.diff"@ {
        "Diff"@
    } else if key == "graph.clear_data"@ {
        "Clear Data"@
    } else if key == "graph.load_log"@ {
        "Load Log"@
    } else if key == "graph.play"@ {
        "Play"@
    } else if key == "graph.pause"@ {
        "Pause"@
    } else if key == "graph.stop"@ {
        "Stop"@
    } else if key == "graph.speed"@ {
        "Speed:"@
    } else if key == "graph.frame"@ {
        "Frame"@
    } else if key == "graph.cursor_analysis"@ {
        "Cursor Analysis"@
    } else if key == "graph.signal"@ {
        "Signal"@
    } else if key == "graph.c1_value"@ {
        "C1 Value"@
    } else if key == "graph.c2_value"@ {
        "C2 Value"@
    } else if key == "graph.delta"@ {
        "Delta"@
    } else if key == "graph.unit"@ {
        "Unit"@
    } else if key == "graph.signal_selection"@ {
        "Signal Selection"@
    } else if key == "graph.no_dbc"@ {
        "No DBC file loaded. Please load a DBC file first."@
    } else if key == "graph.time_axis"@ {
        "Time [s]"@
    } else if key == "tx.title"@ {
        "Transmission Configuration"@
    } else if key == "tx.save"@ {
        "Save Settings"@
    } else if key == "tx.load"@ {
        "Load Settings"@
    } else if key == "tx.forward_config"@ {
        "Forward Configurations"@
    } else if key == "tx.add_forward"@ {
        "Add Forward"@
    } else if key == "tx.rx_channel"@ {
        "Rx Channel:"@
    } else if key == "tx.tx_channel"@ {
        "Tx Channel:"@
    } else if key == "tx.trapezoidal"@ {
        "Trapezoidal Wave"@
    } else if key == "tx.add_trapezoidal"@ {
        "Add Trapezoidal"@
    } else if key == "tx.message_id"@ {
        "Message ID (hex):"@
    } else if key == "tx.signal"@ {
        "Signal:"@
    } else if key == "tx.signal_name"@ {
        "Signal name:"@
    } else if key == "tx.initial_value"@ {
        "Initial value:"@
    } else if key == "tx.max_value"@ {
        "Max value:"@
    } else if key == "tx.rate"@ {
        "Rate (value/s):"@
    } else if key == "tx.hold_time"@ {
        "Hold time (ms):"@
    } else if key == "tx.cycle_time"@ {
        "Cycle time (ms):"@
    } else if key == "tx.repeat"@ {
        "Repeat"@
    } else if key == "tx.enable"@ {
        "Enable"@
    } else if key == "tx.signal_modifications"@ {
        "Signal Modifications"@
    } else if key == "tx.add_modification"@ {
        "Add Modification"@
    } else if key == "tx.msg"@ {
        "Msg:"@
    } else if key == "tx.sig"@ {
        "Sig:"@
    } else if key == "tx.val"@ {
        "Val:"@
    } else if key == "panel.title"@ {
        "Panel Editor"@
    } else if key == "panel.new"@ {
        "New Panel"@
    } else if key == "panel.name"@ {
        "Panel name:"@
    } else if key == "panel.add_widget"@ {
        "Add widget:"@
    } else if key == "panel.switch"@ {
        "Switch"@
    } else if key == "panel.value_box"@ {
        "ValueBox"@
    } else if key == "panel.select_box"@ {
        "SelectBox"@
    } else if key == "panel.label"@ {
        "Label"@
    } else if key == "panel.add"@ {
        "Add"@
    } else if key == "panel.label_field"@ {
        "Label:"@
    } else if key == "panel.on_action"@ {
        "ON Action"@
    } else if key == "panel.off_action"@ {
        "OFF Action"@
    } else if key == "panel.message"@ {
        "Message:"@
    } else if key == "panel.msg_id"@ {
        "Msg ID:"@
    } else if key == "panel.value"@ {
        "Value:"@
    } else if key == "panel.text"@ {
        "Text:"@
    } else if key == "panel.font_size"@ {
        "Font size:"@
    } else if key == "panel.options"@ {
        "Options:"@
    } else if key == "panel.new_option"@ {
        "New Option"@
    } else if key == "panel.add_option"@ {
        "+ Option"@
    } else if key == "panel.enabled"@ {
        "Enabled"@
    } else if key == "file.asc"@ {
        "ASC files"@
    } else if key == "file.blf"@ {
        "BLF files"@
    } else if key == "file.dbc"@ {
        "DBC files"@
    } else if key == "file.tx_settings"@ {
        "TX Settings"@
    } else if key == "file.log_files"@ {
        "Log files"@
    } else {
        key
    }
}

/// A known key's texts differ from the key itself.
proof fn lemma_texts_differ(k: Seq<char>, v: Seq<char>)
    requires
        k.len() != v.len() || (k.len() > 0 && v.len() > 0 && k[0] != v[0]),
    ensures
        k != v,
{
}

/// A key comes back unchanged, in either language, exactly when it is none
/// of the keys the user interface has texts for.
proof fn lemma_texts_of(key: Seq<char>)
    ensures
        (ja_text(key) == key) == !translated(key),
        (en_text(key) == key) == !translated(key),
{
    assert("app.title"@ != "CANkoro - CAN/CAN-FD 解析ツール"@ && "app.title"@ != "CANkoro - CAN/CAN-FD Analysis Tool"@) by {
        reveal_strlit("app.title");
        reveal_strlit("CANkoro - CAN/CAN-FD 解析ツール");
        reveal_strlit("CANkoro - CAN/CAN-FD Analysis Tool");
        assert("app.title"@[0] == 'a');
        assert("CANkoro - CAN/CAN-FD 解析ツール"@[0] == 'C');
        assert("CANkoro - CAN/CAN-FD Analysis Tool"@[0] == 'C');
        lemma_texts_differ("app.title"@, "CANkoro - CAN/CAN-FD 解析ツール"@);
        lemma_texts_differ("app.title"@, "CANkoro - CAN/CAN-FD Analysis Tool"@);
    }
    assert("app.name"@ != "CANkoro"@ && "app.name"@ != "CANkoro"@) by {
        reveal_strlit("app.name");
        reveal_strlit("CANkoro");
        reveal_strlit("CANkoro");
        assert("app.name"@[0] == 'a');
        assert("CANkoro"@[0] == 'C');
        assert("CANkoro"@[0] == 'C');
        lemma_texts_differ("app.name"@, "CANkoro"@);
        lemma_texts_differ("app.name"@, "CANkoro"@);
    }
    assert("app.connect"@ != "接続"@ && "app.connect"@ != "Connect"@) by {
        reveal_strlit("app.connect");
        reveal_strlit("接続");
        reveal_strlit("Connect");
        assert("app.connect"@[0] == 'a');
        assert("接続"@[0] == '接');
        assert("Connect"@[0] == 'C');
        lemma_texts_differ("app.connect"@, "接続"@);
        lemma_texts_differ("app.connect"@, "Connect"@);
    }
    assert("app.disconnect"@ != "切断"@ && "app.disconnect"@ != "Disconnect"@) by {
        reveal_strlit("app.disconnect");
        reveal_strlit("切断");
        reveal_strlit("Disconnect");
        assert("app.disconnect"@[0] == 'a');
        assert("切断"@[0] == '切');
        assert("Disconnect"@[0] == 'D');
        lemma_texts_differ("app.disconnect"@, "切断"@);
        lemma_texts_differ("app.disconnect"@, "Disconnect"@);
    }
    assert("app.start_logging"@ != "ログ開始"@ && "app.start_logging"@ != "Start Logging"@) by {
        reveal_strlit("app.start_logging");
        reveal_strlit("ログ開始");
        reveal_strlit("Start Logging");
        assert("app.start_logging"@[0] == 'a');
        assert("ログ開始"@[0] == 'ロ');
        assert("Start Logging"@[0] == 'S');
        lemma_texts_differ("app.start_logging"@, "ログ開始"@);
        lemma_texts_differ("app.start_logging"@, "Start Logging"@);
    }
    assert("app.stop_logging"@ != "ログ停止"@ && "app.stop_logging"@ != "Stop Logging"@) by {
        reveal_strlit("app.stop_logging");
        reveal_strlit("ログ停止");
        reveal_strlit("Stop Logging");
        assert("app.stop_logging"@[0] == 'a');
        assert("ログ停止"@[0] == 'ロ');
        assert("Stop Logging"@[0] == 'S');
        lemma_texts_differ("app.stop_logging"@, "ログ停止"@);
        lemma_texts_differ("app.stop_logging"@, "Stop Logging"@);
    }
    assert("app.connected"@ != "接続済み"@ && "app.connected"@ != "Connected"@) by {
        reveal_strlit("app.connected");
        reveal_strlit("接続済み");
        reveal_strlit("Connected");
        assert("app.connected"@[0] == 'a');
        assert("接続済み"@[0] == '接');
        assert("Connected"@[0] == 'C');
        lemma_texts_differ("app.connected"@, "接続済み"@);
        lemma_texts_differ("app.connected"@, "Connected"@);
    }
    assert("app.disconnected"@ != "未接続"@ && "app.disconnected"@ != "Disconnected"@) by {
        reveal_strlit("app.disconnected");
        reveal_strlit("未接続");
        reveal_strlit("Disconnected");
        assert("app.disconnected"@[0] == 'a');
        assert("未接続"@[0] == '未');
        assert("Disconnected"@[0] == 'D');
        lemma_texts_differ("app.disconnected"@, "未接続"@);
        lemma_texts_differ("app.disconnected"@, "Disconnected"@);
    }
    assert("app.rec"@ != "REC"@ && "app.rec"@ != "REC"@) by {
        reveal_strlit("app.rec");
        reveal_strlit("REC");
        reveal_strlit("REC");
        assert("app.rec"@[0] == 'a');
        assert("REC"@[0] == 'R');
        assert("REC"@[0] == 'R');
        lemma_texts_differ("app.rec"@, "REC"@);
        lemma_texts_differ("app.rec"@, "REC"@);
    }
    assert("app.language"@ != "言語"@ && "app.language"@ != "Language"@) by {
        reveal_strlit("app.language");
        reveal_strlit("言語");
        reveal_strlit("Language");
        assert("app.language"@[0] == 'a');
        assert("言語"@[0] == '言');
        assert("Language"@[0] == 'L');
        lemma_texts_differ("app.language"@, "言語"@);
        lemma_texts_differ("app.language"@, "Language"@);
    }
    assert("err.driver_not_available"@ != "Vectorドライバーが利用できません"@ && "err.driver_not_available"@ != "Vector driver not available"@) by {
        reveal_strlit("err.driver_not_available");
        reveal_strlit("Vectorドライバーが利用できません");
        reveal_strlit("Vector driver not available");
        assert("err.driver_not_available"@[0] == 'e');
        assert("Vectorドライバーが利用できません"@[0] == 'V');
        assert("Vector driver not available"@[0] == 'V');
        lemma_texts_differ("err.driver_not_available"@, "Vectorドライバーが利用できません"@);
        lemma_texts_differ("err.driver_not_available"@, "Vector driver not available"@);
    }
    assert("err.no_channels_enabled"@ != "チャンネルが有効になっていません"@ && "err.no_channels_enabled"@ != "No channels enabled"@) by {
        reveal_strlit("err.no_channels_enabled");
        reveal_strlit("チャンネルが有効になっていません");
        reveal_strlit("No channels enabled");
        assert("err.no_channels_enabled"@[0] == 'e');
        assert("チャンネルが有効になっていません"@[0] == 'チ');
        assert("No channels enabled"@[0] == 'N');
        lemma_texts_differ("err.no_channels_enabled"@, "チャンネルが有効になっていません"@);
        lemma_texts_differ("err.no_channels_enabled"@, "No channels enabled"@);
    }
    assert("err.activate_failed"@ != "アクティベート失敗"@ && "err.activate_failed"@ != "Activate failed"@) by {
        reveal_strlit("err.activate_failed");
        reveal_strlit("アクティベート失敗");
        reveal_strlit("Activate failed");
        assert("err.activate_failed"@[0] == 'e');
        assert("アクティベート失敗"@[0] == 'ア');
        assert("Activate failed"@[0] == 'A');
        lemma_texts_differ("err.activate_failed"@, "アクティベート失敗"@);
        lemma_texts_differ("err.activate_failed"@, "Activate failed"@);
    }
    assert("err.open_port_failed"@ != "ポートオープン失敗"@ && "err.open_port_failed"@ != "Open port failed"@) by {
        reveal_strlit("err.open_port_failed");
        reveal_strlit("ポートオープン失敗");
        reveal_strlit("Open port failed");
        assert("err.open_port_failed"@[0] == 'e');
        assert("ポートオープン失敗"@[0] == 'ポ');
        assert("Open port failed"@[0] == 'O');
        lemma_texts_differ("err.open_port_failed"@, "ポートオープン失敗"@);
        lemma_texts_differ("err.open_port_failed"@, "Open port failed"@);
    }
    assert("err.dbc_load_error"@ != "DBCロードエラー"@ && "err.dbc_load_error"@ != "DBC load error"@) by {
        reveal_strlit("err.dbc_load_error");
        reveal_strlit("DBCロードエラー");
        reveal_strlit("DBC load error");
        assert("err.dbc_load_error"@[0] == 'e');
        assert("DBCロードエラー"@[0] == 'D');
        assert("DBC load error"@[0] == 'D');
        lemma_texts_differ("err.dbc_load_error"@, "DBCロードエラー"@);
        lemma_texts_differ("err.dbc_load_error"@, "DBC load error"@);
    }
    assert("err.blf_open_error"@ != "BLFオープンエラー"@ && "err.blf_open_error"@ != "BLF open error"@) by {
        reveal_strlit("err.blf_open_error");
        reveal_strlit("BLFオープンエラー");
        reveal_strlit("BLF open error");
        assert("err.blf_open_error"@[0] == 'e');
        assert("BLFオープンエラー"@[0] == 'B');
        assert("BLF open error"@[0] == 'B');
        lemma_texts_differ("err.blf_open_error"@, "BLFオープンエラー"@);
        lemma_texts_differ("err.blf_open_error"@, "BLF open error"@);
    }
    assert("err.asc_open_error"@ != "ASCオープンエラー"@ && "err.asc_open_error"@ != "ASC open error"@) by {
        reveal_strlit("err.asc_open_error");
        reveal_strlit("ASCオープンエラー");
        reveal_strlit("ASC open error");
        assert("err.asc_open_error"@[0] == 'e');
        assert("ASCオープンエラー"@[0] == 'A');
        assert("ASC open error"@[0] == 'A');
        lemma_texts_differ("err.asc_open_error"@, "ASCオープンエラー"@);
        lemma_texts_differ("err.asc_open_error"@, "ASC open error"@);
    }
    assert("tab.channel_config"@ != "チャンネル設定"@ && "tab.channel_config"@ != "Channel Config"@) by {
        reveal_strlit("tab.channel_config");
        reveal_strlit("チャンネル設定");
        reveal_strlit("Channel Config");
        assert("tab.channel_config"@[0] == 't');
        assert("チャンネル設定"@[0] == 'チ');
        assert("Channel Config"@[0] == 'C');
        lemma_texts_differ("tab.channel_config"@, "チャンネル設定"@);
        lemma_texts_differ("tab.channel_config"@, "Channel Config"@);
    }
    assert("tab.can_log"@ != "CANログ"@ && "tab.can_log"@ != "CAN Log"@) by {
        reveal_strlit("tab.can_log");
        reveal_strlit("CANログ");
        reveal_strlit("CAN Log");
        assert("tab.can_log"@[0] == 't');
        assert("CANログ"@[0] == 'C');
        assert("CAN Log"@[0] == 'C');
        lemma_texts_differ("tab.can_log"@, "CANログ"@);
        lemma_texts_differ("tab.can_log"@, "CAN Log"@);
    }
    assert("tab.graph"@ != "グラフ"@ && "tab.graph"@ != "Graph"@) by {
        reveal_strlit("tab.graph");
        reveal_strlit("グラフ");
        reveal_strlit("Graph");
        assert("tab.graph"@[0] == 't');
        assert("グラフ"@[0] == 'グ');
        assert("Graph"@[0] == 'G');
        lemma_texts_differ("tab.graph"@, "グラフ"@);
        lemma_texts_differ("tab.graph"@, "Graph"@);
    }
    assert("tab.tx_config"@ != "送信設定"@ && "tab.tx_config"@ != "TX Config"@) by {
        reveal_strlit("tab.tx_config");
        reveal_strlit("送信設定");
        reveal_strlit("TX Config");
        assert("tab.tx_config"@[0] == 't');
        assert("送信設定"@[0] == '送');
        assert("TX Config"@[0] == 'T');
        lemma_texts_differ("tab.tx_config"@, "送信設定"@);
        lemma_texts_differ("tab.tx_config"@, "TX Config"@);
    }
    assert("tab.tx_panels"@ != "送信パネル"@ && "tab.tx_panels"@ != "TX Panels"@) by {
        reveal_strlit("tab.tx_panels");
        reveal_strlit("送信パネル");
        reveal_strlit("TX Panels");
        assert("tab.tx_panels"@[0] == 't');
        assert("送信パネル"@[0] == '送');
        assert("TX Panels"@[0] == 'T');
        lemma_texts_differ("tab.tx_panels"@, "送信パネル"@);
        lemma_texts_differ("tab.tx_panels"@, "TX Panels"@);
    }
    assert("tab.panel_editor"@ != "パネルエディタ"@ && "tab.panel_editor"@ != "Panel Editor"@) by {
        reveal_strlit("tab.panel_editor");
        reveal_strlit("パネルエディタ");
        reveal_strlit("Panel Editor");
        assert("tab.panel_editor"@[0] == 't');
        assert("パネルエディタ"@[0] == 'パ');
        assert("Panel Editor"@[0] == 'P');
        lemma_texts_differ("tab.panel_editor"@, "パネルエディタ"@);
        lemma_texts_differ("tab.panel_editor"@, "Panel Editor"@);
    }
    assert("ch.title"@ != "チャンネル設定"@ && "ch.title"@ != "Channel Configuration"@) by {
        reveal_strlit("ch.title");
        reveal_strlit("チャンネル設定");
        reveal_strlit("Channel Configuration");
        assert("ch.title"@[0] == 'c');
        assert("チャンネル設定"@[0] == 'チ');
        assert("Channel Configuration"@[0] == 'C');
        lemma_texts_differ("ch.title"@, "チャンネル設定"@);
        lemma_texts_differ("ch.title"@, "Channel Configuration"@);
    }
    assert("ch.dbc_file"@ != "DBCファイル:"@ && "ch.dbc_file"@ != "DBC File:"@) by {
        reveal_strlit("ch.dbc_file");
        reveal_strlit("DBCファイル:");
        reveal_strlit("DBC File:");
        assert("ch.dbc_file"@[0] == 'c');
        assert("DBCファイル:"@[0] == 'D');
        assert("DBC File:"@[0] == 'D');
        lemma_texts_differ("ch.dbc_file"@, "DBCファイル:"@);
        lemma_texts_differ("ch.dbc_file"@, "DBC File:"@);
    }
    assert("ch.none"@ != "(なし)"@ && "ch.none"@ != "(None)"@) by {
        reveal_strlit("ch.none");
        reveal_strlit("(なし)");
        reveal_strlit("(None)");
        assert("ch.none"@[0] == 'c');
        assert("(なし)"@[0] == '(');
        assert("(None)"@[0] == '(');
        lemma_texts_differ("ch.none"@, "(なし)"@);
        lemma_texts_differ("ch.none"@, "(None)"@);
    }
    assert("ch.browse"@ != "参照..."@ && "ch.browse"@ != "Browse..."@) by {
        reveal_strlit("ch.browse");
        reveal_strlit("参照...");
        reveal_strlit("Browse...");
        assert("ch.browse"@[0] == 'c');
        assert("参照..."@[0] == '参');
        assert("Browse..."@[0] == 'B');
        lemma_texts_differ("ch.browse"@, "参照..."@);
        lemma_texts_differ("ch.browse"@, "Browse..."@);
    }
    assert("ch.no_channels"@ != "CANチャンネルが検出されませんでした。Vectorハードウェアの接続を確認してください。"@ && "ch.no_channels"@ != "No CAN channels detected. Please check Vector hardware connection."@) by {
        reveal_strlit("ch.no_channels");
        reveal_strlit("CANチャンネルが検出されませんでした。Vectorハードウェアの接続を確認してください。");
        reveal_strlit("No CAN channels detected. Please check Vector hardware connection.");
        assert("ch.no_channels"@[0] == 'c');
        assert("CANチャンネルが検出されませんでした。Vectorハードウェアの接続を確認してください。"@[0] == 'C');
        assert("No CAN channels detected. Please check Vector hardware connection."@[0] == 'N');
        lemma_texts_differ("ch.no_channels"@, "CANチャンネルが検出されませんでした。Vectorハードウェアの接続を確認してください。"@);
        lemma_texts_differ("ch.no_channels"@, "No CAN channels detected. Please check Vector hardware connection."@);
    }
    assert("ch.mode"@ != "モード:"@ && "ch.mode"@ != "Mode:"@) by {
        reveal_strlit("ch.mode");
        reveal_strlit("モード:");
        reveal_strlit("Mode:");
        assert("ch.mode"@[0] == 'c');
        assert("モード:"@[0] == 'モ');
        assert("Mode:"@[0] == 'M');
        lemma_texts_differ("ch.mode"@, "モード:"@);
        lemma_texts_differ("ch.mode"@, "Mode:"@);
    }
    assert("ch.can"@ != "CAN"@ && "ch.can"@ != "CAN"@) by {
        reveal_strlit("ch.can");
        reveal_strlit("CAN");
        reveal_strlit("CAN");
        assert("ch.can"@[0] == 'c');
        assert("CAN"@[0] == 'C');
        assert("CAN"@[0] == 'C');
        lemma_texts_differ("ch.can"@, "CAN"@);
        lemma_texts_differ("ch.can"@, "CAN"@);
    }
    assert("ch.can_fd"@ != "CAN FD"@ && "ch.can_fd"@ != "CAN FD"@) by {
        reveal_strlit("ch.can_fd");
        reveal_strlit("CAN FD");
        reveal_strlit("CAN FD");
        assert("ch.can_fd"@[0] == 'c');
        assert("CAN FD"@[0] == 'C');
        assert("CAN FD"@[0] == 'C');
        lemma_texts_differ("ch.can_fd"@, "CAN FD"@);
        lemma_texts_differ("ch.can_fd"@, "CAN FD"@);
    }
    assert("ch.bitrate"@ != "ビットレート:"@ && "ch.bitrate"@ != "Bitrate:"@) by {
        reveal_strlit("ch.bitrate");
        reveal_strlit("ビットレート:");
        reveal_strlit("Bitrate:");
        assert("ch.bitrate"@[0] == 'c');
        assert("ビットレート:"@[0] == 'ビ');
        assert("Bitrate:"@[0] == 'B');
        lemma_texts_differ("ch.bitrate"@, "ビットレート:"@);
        lemma_texts_differ("ch.bitrate"@, "Bitrate:"@);
    }
    assert("ch.data_bitrate"@ != "データビットレート:"@ && "ch.data_bitrate"@ != "Data Bitrate:"@) by {
        reveal_strlit("ch.data_bitrate");
        reveal_strlit("データビットレート:");
        reveal_strlit("Data Bitrate:");
        assert("ch.data_bitrate"@[0] == 'c');
        assert("データビットレート:"@[0] == 'デ');
        assert("Data Bitrate:"@[0] == 'D');
        lemma_texts_differ("ch.data_bitrate"@, "データビットレート:"@);
        lemma_texts_differ("ch.data_bitrate"@, "Data Bitrate:"@);
    }
    assert("ch.transceiver"@ != "トランシーバー:"@ && "ch.transceiver"@ != "Transceiver:"@) by {
        reveal_strlit("ch.transceiver");
        reveal_strlit("トランシーバー:");
        reveal_strlit("Transceiver:");
        assert("ch.transceiver"@[0] == 'c');
        assert("トランシーバー:"@[0] == 'ト');
        assert("Transceiver:"@[0] == 'T');
        lemma_texts_differ("ch.transceiver"@, "トランシーバー:"@);
        lemma_texts_differ("ch.transceiver"@, "Transceiver:"@);
    }
    assert("log.title"@ != "CANログ"@ && "log.title"@ != "CAN Log"@) by {
        reveal_strlit("log.title");
        reveal_strlit("CANログ");
        reveal_strlit("CAN Log");
        assert("log.title"@[0] == 'l');
        assert("CANログ"@[0] == 'C');
        assert("CAN Log"@[0] == 'C');
        lemma_texts_differ("log.title"@, "CANログ"@);
        lemma_texts_differ("log.title"@, "CAN Log"@);
    }
    assert("log.total"@ != "合計"@ && "log.total"@ != "Total"@) by {
        reveal_strlit("log.total");
        reveal_strlit("合計");
        reveal_strlit("Total");
        assert("log.total"@[0] == 'l');
        assert("合計"@[0] == '合');
        assert("Total"@[0] == 'T');
        lemma_texts_differ("log.total"@, "合計"@);
        lemma_texts_differ("log.total"@, "Total"@);
    }
    assert("log.displayed"@ != "表示"@ && "log.displayed"@ != "Displayed"@) by {
        reveal_strlit("log.displayed");
        reveal_strlit("表示");
        reveal_strlit("Displayed");
        assert("log.displayed"@[0] == 'l');
        assert("表示"@[0] == '表');
        assert("Displayed"@[0] == 'D');
        lemma_texts_differ("log.displayed"@, "表示"@);
        lemma_texts_differ("log.displayed"@, "Displayed"@);
    }
    assert("log.auto_scroll"@ != "自動スクロール"@ && "log.auto_scroll"@ != "Auto-scroll"@) by {
        reveal_strlit("log.auto_scroll");
        reveal_strlit("自動スクロール");
        reveal_strlit("Auto-scroll");
        assert("log.auto_scroll"@[0] == 'l');
        assert("自動スクロール"@[0] == '自');
        assert("Auto-scroll"@[0] == 'A');
        lemma_texts_differ("log.auto_scroll"@, "自動スクロール"@);
        lemma_texts_differ("log.auto_scroll"@, "Auto-scroll"@);
    }
    assert("log.pause"@ != "一時停止"@ && "log.pause"@ != "Pause"@) by {
        reveal_strlit("log.pause");
        reveal_strlit("一時停止");
        reveal_strlit("Pause");
        assert("log.pause"@[0] == 'l');
        assert("一時停止"@[0] == '一');
        assert("Pause"@[0] == 'P');
        lemma_texts_differ("log.pause"@, "一時停止"@);
        lemma_texts_differ("log.pause"@, "Pause"@);
    }
    assert("log.resume"@ != "再開"@ && "log.resume"@ != "Resume"@) by {
        reveal_strlit("log.resume");
        reveal_strlit("再開");
        reveal_strlit("Resume");
        assert("log.resume"@[0] == 'l');
        assert("再開"@[0] == '再');
        assert("Resume"@[0] == 'R');
        lemma_texts_differ("log.resume"@, "再開"@);
        lemma_texts_differ("log.resume"@, "Resume"@);
    }
    assert("log.clear"@ != "クリア"@ && "log.clear"@ != "Clear"@) by {
        reveal_strlit("log.clear");
        reveal_strlit("クリア");
        reveal_strlit("Clear");
        assert("log.clear"@[0] == 'l');
        assert("クリア"@[0] == 'ク');
        assert("Clear"@[0] == 'C');
        lemma_texts_differ("log.clear"@, "クリア"@);
        lemma_texts_differ("log.clear"@, "Clear"@);
    }
    assert("log.id_filter"@ != "IDフィルタ:"@ && "log.id_filter"@ != "ID Filter:"@) by {
        reveal_strlit("log.id_filter");
        reveal_strlit("IDフィルタ:");
        reveal_strlit("ID Filter:");
        assert("log.id_filter"@[0] == 'l');
        assert("IDフィルタ:"@[0] == 'I');
        assert("ID Filter:"@[0] == 'I');
        lemma_texts_differ("log.id_filter"@, "IDフィルタ:"@);
        lemma_texts_differ("log.id_filter"@, "ID Filter:"@);
    }
    assert("log.timestamp"@ != "タイムスタンプ"@ && "log.timestamp"@ != "Timestamp"@) by {
        reveal_strlit("log.timestamp");
        reveal_strlit("タイムスタンプ");
        reveal_strlit("Timestamp");
        assert("log.timestamp"@[0] == 'l');
        assert("タイムスタンプ"@[0] == 'タ');
        assert("Timestamp"@[0] == 'T');
        lemma_texts_differ("log.timestamp"@, "タイムスタンプ"@);
        lemma_texts_differ("log.timestamp"@, "Timestamp"@);
    }
    assert("log.channel"@ != "Ch"@ && "log.channel"@ != "Ch"@) by {
        reveal_strlit("log.channel");
        reveal_strlit("Ch");
        reveal_strlit("Ch");
        assert("log.channel"@[0] == 'l');
        assert("Ch"@[0] == 'C');
        assert("Ch"@[0] == 'C');
        lemma_texts_differ("log.channel"@, "Ch"@);
        lemma_texts_differ("log.channel"@, "Ch"@);
    }
    assert("log.direction"@ != "方向"@ && "log.direction"@ != "Dir"@) by {
        reveal_strlit("log.direction");
        reveal_strlit("方向");
        reveal_strlit("Dir");
        assert("log.direction"@[0] == 'l');
        assert("方向"@[0] == '方');
        assert("Dir"@[0] == 'D');
        lemma_texts_differ("log.direction"@, "方向"@);
        lemma_texts_differ("log.direction"@, "Dir"@);
    }
    assert("log.id"@ != "ID"@ && "log.id"@ != "ID"@) by {
        reveal_strlit("log.id");
        reveal_strlit("ID");
        reveal_strlit("ID");
        assert("log.id"@[0] == 'l');
        assert("ID"@[0] == 'I');
        assert("ID"@[0] == 'I');
        lemma_texts_differ("log.id"@, "ID"@);
        lemma_texts_differ("log.id"@, "ID"@);
    }
    assert("log.dlc"@ != "DLC"@ && "log.dlc"@ != "DLC"@) by {
        reveal_strlit("log.dlc");
        reveal_strlit("DLC");
        reveal_strlit("DLC");
        assert("log.dlc"@[0] == 'l');
        assert("DLC"@[0] == 'D');
        assert("DLC"@[0] == 'D');
        lemma_texts_differ("log.dlc"@, "DLC"@);
        lemma_texts_differ("log.dlc"@, "DLC"@);
    }
    assert("log.fd"@ != "FD"@ && "log.fd"@ != "FD"@) by {
        reveal_strlit("log.fd");
        reveal_strlit("FD");
        reveal_strlit("FD");
        assert("log.fd"@[0] == 'l');
        assert("FD"@[0] == 'F');
        assert("FD"@[0] == 'F');
        lemma_texts_differ("log.fd"@, "FD"@);
        lemma_texts_differ("log.fd"@, "FD"@);
    }
    assert("log.brs"@ != "BRS"@ && "log.brs"@ != "BRS"@) by {
        reveal_strlit("log.brs");
        reveal_strlit("BRS");
        reveal_strlit("BRS");
        assert("log.brs"@[0] == 'l');
        assert("BRS"@[0] == 'B');
        assert("BRS"@[0] == 'B');
        lemma_texts_differ("log.brs"@, "BRS"@);
        lemma_texts_differ("log.brs"@, "BRS"@);
    }
    assert("log.data"@ != "データ"@ && "log.data"@ != "Data"@) by {
        reveal_strlit("log.data");
        reveal_strlit("データ");
        reveal_strlit("Data");
        assert("log.data"@[0] == 'l');
        assert("データ"@[0] == 'デ');
        assert("Data"@[0] == 'D');
        lemma_texts_differ("log.data"@, "データ"@);
        lemma_texts_differ("log.data"@, "Data"@);
    }
    assert("log.rx"@ != "Rx"@ && "log.rx"@ != "Rx"@) by {
        reveal_strlit("log.rx");
        reveal_strlit("Rx");
        reveal_strlit("Rx");
        assert("log.rx"@[0] == 'l');
        assert("Rx"@[0] == 'R');
        assert("Rx"@[0] == 'R');
        lemma_texts_differ("log.rx"@, "Rx"@);
        lemma_texts_differ("log.rx"@, "Rx"@);
    }
    assert("log.tx"@ != "Tx"@ && "log.tx"@ != "Tx"@) by {
        reveal_strlit("log.tx");
        reveal_strlit("Tx");
        reveal_strlit("Tx");
        assert("log.tx"@[0] == 'l');
        assert("Tx"@[0] == 'T');
        assert("Tx"@[0] == 'T');
        lemma_texts_differ("log.tx"@, "Tx"@);
        lemma_texts_differ("log.tx"@, "Tx"@);
    }
    assert("graph.title"@ != "シグナルグラフ"@ && "graph.title"@ != "Signal Graph"@) by {
        reveal_strlit("graph.title");
        reveal_strlit("シグナルグラフ");
        reveal_strlit("Signal Graph");
        assert("graph.title"@[0] == 'g');
        assert("シグナルグラフ"@[0] == 'シ');
        assert("Signal Graph"@[0] == 'S');
        lemma_texts_differ("graph.title"@, "シグナルグラフ"@);
        lemma_texts_differ("graph.title"@, "Signal Graph"@);
    }
    assert("graph.realtime"@ != "リアルタイム"@ && "graph.realtime"@ != "Realtime"@) by {
        reveal_strlit("graph.realtime");
        reveal_strlit("リアルタイム");
        reveal_strlit("Realtime");
        assert("graph.realtime"@[0] == 'g');
        assert("リアルタイム"@[0] == 'リ');
        assert("Realtime"@[0] == 'R');
        lemma_texts_differ("graph.realtime"@, "リアルタイム"@);
        lemma_texts_differ("graph.realtime"@, "Realtime"@);
    }
    assert("graph.playback"@ != "再生"@ && "graph.playback"@ != "Playback"@) by {
        reveal_strlit("graph.playback");
        reveal_strlit("再生");
        reveal_strlit("Playback");
        assert("graph.playback"@[0] == 'g');
        assert("再生"@[0] == '再');
        assert("Playback"@[0] == 'P');
        lemma_texts_differ("graph.playback"@, "再生"@);
        lemma_texts_differ("graph.playback"@, "Playback"@);
    }
    assert("graph.select_signals"@ != "シグナル選択"@ && "graph.select_signals"@ != "Select Signals"@) by {
        reveal_strlit("graph.select_signals");
        reveal_strlit("シグナル選択");
        reveal_strlit("Select Signals");
        assert("graph.select_signals"@[0] == 'g');
        assert("シグナル選択"@[0] == 'シ');
        assert("Select Signals"@[0] == 'S');
        lemma_texts_differ("graph.select_signals"@, "シグナル選択"@);
        lemma_texts_differ("graph.select_signals"@, "Select Signals"@);
    }
    assert("graph.fit_all"@ != "全体表示"@ && "graph.fit_all"@ != "Fit All"@) by {
        reveal_strlit("graph.fit_all");
        reveal_strlit("全体表示");
        reveal_strlit("Fit All");
        assert("graph.fit_all"@[0] == 'g');
        assert("全体表示"@[0] == '全');
        assert("Fit All"@[0] == 'F');
        lemma_texts_differ("graph.fit_all"@, "全体表示"@);
        lemma_texts_differ("graph.fit_all"@, "Fit All"@);
    }
    assert("graph.auto_scroll"@ != "自動スクロール"@ && "graph.auto_scroll"@ != "Auto-scroll"@) by {
        reveal_strlit("graph.auto_scroll");
        reveal_strlit("自動スクロール");
        reveal_strlit("Auto-scroll");
        assert("graph.auto_scroll"@[0] == 'g');
        assert("自動スクロール"@[0] == '自');
        assert("Auto-scroll"@[0] == 'A');
        lemma_texts_differ("graph.auto_scroll"@, "自動スクロール"@);
        lemma_texts_differ("graph.auto_scroll"@, "Auto-scroll"@);
    }
    assert("graph.c1"@ != "C1"@ && "graph.c1"@ != "C1"@) by {
        reveal_strlit("graph.c1");
        reveal_strlit("C1");
        reveal_strlit("C1");
        assert("graph.c1"@[0] == 'g');
        assert("C1"@[0] == 'C');
        assert("C1"@[0] == 'C');
        lemma_texts_differ("graph.c1"@, "C1"@);
        lemma_texts_differ("graph.c1"@, "C1"@);
    }
    assert("graph.c2"@ != "C2"@ && "graph.c2"@ != "C2"@) by {
        reveal_strlit("graph.c2");
        reveal_strlit("C2");
        reveal_strlit("C2");
        assert("graph.c2"@[0] == 'g');
        assert("C2"@[0] == 'C');
        assert("C2"@[0] == 'C');
        lemma_texts_differ("graph.c2"@, "C2"@);
        lemma_texts_differ("graph.c2"@, "C2"@);
    }
    assert("graph.diff"@ != "差分"@ && "graph.diff"@ != "Diff"@) by {
        reveal_strlit("graph.diff");
        reveal_strlit("差分");
        reveal_strlit("Diff");
        assert("graph.diff"@[0] == 'g');
        assert("差分"@[0] == '差');
        assert("Diff"@[0] == 'D');
        lemma_texts_differ("graph.diff"@, "差分"@);
        lemma_texts_differ("graph.diff"@, "Diff"@);
    }
    assert("graph.clear_data"@ != "データクリア"@ && "graph.clear_data"@ != "Clear Data"@) by {
        reveal_strlit("graph.clear_data");
        reveal_strlit("データクリア");
        reveal_strlit("Clear Data");
        assert("graph.clear_data"@[0] == 'g');
        assert("データクリア"@[0] == 'デ');
        assert("Clear Data"@[0] == 'C');
        lemma_texts_differ("graph.clear_data"@, "データクリア"@);
        lemma_texts_differ("graph.clear_data"@, "Clear Data"@);
    }
    assert("graph.load_log"@ != "ログ読込"@ && "graph.load_log"@ != "Load Log"@) by {
        reveal_strlit("graph.load_log");
        reveal_strlit("ログ読込");
        reveal_strlit("Load Log");
        assert("graph.load_log"@[0] == 'g');
        assert("ログ読込"@[0] == 'ロ');
        assert("Load Log"@[0] == 'L');
        lemma_texts_differ("graph.load_log"@, "ログ読込"@);
        lemma_texts_differ("graph.load_log"@, "Load Log"@);
    }
    assert("graph.play"@ != "再生"@ && "graph.play"@ != "Play"@) by {
        reveal_strlit("graph.play");
        reveal_strlit("再生");
        reveal_strlit("Play");
        assert("graph.play"@[0] == 'g');
        assert("再生"@[0] == '再');
        assert("Play"@[0] == 'P');
        lemma_texts_differ("graph.play"@, "再生"@);
        lemma_texts_differ("graph.play"@, "Play"@);
    }
    assert("graph.pause"@ != "一時停止"@ && "graph.pause"@ != "Pause"@) by {
        reveal_strlit("graph.pause");
        reveal_strlit("一時停止");
        reveal_strlit("Pause");
        assert("graph.pause"@[0] == 'g');
        assert("一時停止"@[0] == '一');
        assert("Pause"@[0] == 'P');
        lemma_texts_differ("graph.pause"@, "一時停止"@);
        lemma_texts_differ("graph.pause"@, "Pause"@);
    }
    assert("graph.stop"@ != "停止"@ && "graph.stop"@ != "Stop"@) by {
        reveal_strlit("graph.stop");
        reveal_strlit("停止");
        reveal_strlit("Stop");
        assert("graph.stop"@[0] == 'g');
        assert("停止"@[0] == '停');
        assert("Stop"@[0] == 'S');
        lemma_texts_differ("graph.stop"@, "停止"@);
        lemma_texts_differ("graph.stop"@, "Stop"@);
    }
    assert("graph.speed"@ != "速度:"@ && "graph.speed"@ != "Speed:"@) by {
        reveal_strlit("graph.speed");
        reveal_strlit("速度:");
        reveal_strlit("Speed:");
        assert("graph.speed"@[0] == 'g');
        assert("速度:"@[0] == '速');
        assert("Speed:"@[0] == 'S');
        lemma_texts_differ("graph.speed"@, "速度:"@);
        lemma_texts_differ("graph.speed"@, "Speed:"@);
    }
    assert("graph.frame"@ != "フレーム"@ && "graph.frame"@ != "Frame"@) by {
        reveal_strlit("graph.frame");
        reveal_strlit("フレーム");
        reveal_strlit("Frame");
        assert("graph.frame"@[0] == 'g');
        assert("フレーム"@[0] == 'フ');
        assert("Frame"@[0] == 'F');
        lemma_texts_differ("graph.frame"@, "フレーム"@);
        lemma_texts_differ("graph.frame"@, "Frame"@);
    }
    assert("graph.cursor_analysis"@ != "カーソル解析"@ && "graph.cursor_analysis"@ != "Cursor Analysis"@) by {
        reveal_strlit("graph.cursor_analysis");
        reveal_strlit("カーソル解析");
        reveal_strlit("Cursor Analysis");
        assert("graph.cursor_analysis"@[0] == 'g');
        assert("カーソル解析"@[0] == 'カ');
        assert("Cursor Analysis"@[0] == 'C');
        lemma_texts_differ("graph.cursor_analysis"@, "カーソル解析"@);
        lemma_texts_differ("graph.cursor_analysis"@, "Cursor Analysis"@);
    }
    assert("graph.signal"@ != "シグナル"@ && "graph.signal"@ != "Signal"@) by {
        reveal_strlit("graph.signal");
        reveal_strlit("シグナル");
        reveal_strlit("Signal");
        assert("graph.signal"@[0] == 'g');
        assert("シグナル"@[0] == 'シ');
        assert("Signal"@[0] == 'S');
        lemma_texts_differ("graph.signal"@, "シグナル"@);
        lemma_texts_differ("graph.signal"@, "Signal"@);
    }
    assert("graph.c1_value"@ != "C1値"@ && "graph.c1_value"@ != "C1 Value"@) by {
        reveal_strlit("graph.c1_value");
        reveal_strlit("C1値");
        reveal_strlit("C1 Value");
        assert("graph.c1_value"@[0] == 'g');
        assert("C1値"@[0] == 'C');
        assert("C1 Value"@[0] == 'C');
        lemma_texts_differ("graph.c1_value"@, "C1値"@);
        lemma_texts_differ("graph.c1_value"@, "C1 Value"@);
    }
    assert("graph.c2_value"@ != "C2値"@ && "graph.c2_value"@ != "C2 Value"@) by {
        reveal_strlit("graph.c2_value");
        reveal_strlit("C2値");
        reveal_strlit("C2 Value");
        assert("graph.c2_value"@[0] == 'g');
        assert("C2値"@[0] == 'C');
        assert("C2 Value"@[0] == 'C');
        lemma_texts_differ("graph.c2_value"@, "C2値"@);
        lemma_texts_differ("graph.c2_value"@, "C2 Value"@);
    }
    assert("graph.delta"@ != "差分"@ && "graph.delta"@ != "Delta"@) by {
        reveal_strlit("graph.delta");
        reveal_strlit("差分");
        reveal_strlit("Delta");
        assert("graph.delta"@[0] == 'g');
        assert("差分"@[0] == '差');
        assert("Delta"@[0] == 'D');
        lemma_texts_differ("graph.delta"@, "差分"@);
        lemma_texts_differ("graph.delta"@, "Delta"@);
    }
    assert("graph.unit"@ != "単位"@ && "graph.unit"@ != "Unit"@) by {
        reveal_strlit("graph.unit");
        reveal_strlit("単位");
        reveal_strlit("Unit");
        assert("graph.unit"@[0] == 'g');
        assert("単位"@[0] == '単');
        assert("Unit"@[0] == 'U');
        lemma_texts_differ("graph.unit"@, "単位"@);
        lemma_texts_differ("graph.unit"@, "Unit"@);
    }
    assert("graph.signal_selection"@ != "シグナル選択"@ && "graph.signal_selection"@ != "Signal Selection"@) by {
        reveal_strlit("graph.signal_selection");
        reveal_strlit("シグナル選択");
        reveal_strlit("Signal Selection");
        assert("graph.signal_selection"@[0] == 'g');
        assert("シグナル選択"@[0] == 'シ');
        assert("Signal Selection"@[0] == 'S');
        lemma_texts_differ("graph.signal_selection"@, "シグナル選択"@);
        lemma_texts_differ("graph.signal_selection"@, "Signal Selection"@);
    }
    assert("graph.no_dbc"@ != "DBCファイルが読み込まれていません。先にDBCファイルを読み込んでください。"@ && "graph.no_dbc"@ != "No DBC file loaded. Please load a DBC file first."@) by {
        reveal_strlit("graph.no_dbc");
        reveal_strlit("DBCファイルが読み込まれていません。先にDBCファイルを読み込んでください。");
        reveal_strlit("No DBC file loaded. Please load a DBC file first.");
        assert("graph.no_dbc"@[0] == 'g');
        assert("DBCファイルが読み込まれていません。先にDBCファイルを読み込んでください。"@[0] == 'D');
        assert("No DBC file loaded. Please load a DBC file first."@[0] == 'N');
        lemma_texts_differ("graph.no_dbc"@, "DBCファイルが読み込まれていません。先にDBCファイルを読み込んでください。"@);
        lemma_texts_differ("graph.no_dbc"@, "No DBC file loaded. Please load a DBC file first."@);
    }
    assert("graph.time_axis"@ != "時間 [s]"@ && "graph.time_axis"@ != "Time [s]"@) by {
        reveal_strlit("graph.time_axis");
        reveal_strlit("時間 [s]");
        reveal_strlit("Time [s]");
        assert("graph.time_axis"@[0] == 'g');
        assert("時間 [s]"@[0] == '時');
        assert("Time [s]"@[0] == 'T');
        lemma_texts_differ("graph.time_axis"@, "時間 [s]"@);
        lemma_texts_differ("graph.time_axis"@, "Time [s]"@);
    }
    assert("tx.title"@ != "送信設定"@ && "tx.title"@ != "Transmission Configuration"@) by {
        reveal_strlit("tx.title");
        reveal_strlit("送信設定");
        reveal_strlit("Transmission Configuration");
        assert("tx.title"@[0] == 't');
        assert("送信設定"@[0] == '送');
        assert("Transmission Configuration"@[0] == 'T');
        lemma_texts_differ("tx.title"@, "送信設定"@);
        lemma_texts_differ("tx.title"@, "Transmission Configuration"@);
    }
    assert("tx.save"@ != "設定を保存"@ && "tx.save"@ != "Save Settings"@) by {
        reveal_strlit("tx.save");
        reveal_strlit("設定を保存");
        reveal_strlit("Save Settings");
        assert("tx.save"@[0] == 't');
        assert("設定を保存"@[0] == '設');
        assert("Save Settings"@[0] == 'S');
        lemma_texts_differ("tx.save"@, "設定を保存"@);
        lemma_texts_differ("tx.save"@, "Save Settings"@);
    }
    assert("tx.load"@ != "設定を読込"@ && "tx.load"@ != "Load Settings"@) by {
        reveal_strlit("tx.load");
        reveal_strlit("設定を読込");
        reveal_strlit("Load Settings");
        assert("tx.load"@[0] == 't');
        assert("設定を読込"@[0] == '設');
        assert("Load Settings"@[0] == 'L');
        lemma_texts_differ("tx.load"@, "設定を読込"@);
        lemma_texts_differ("tx.load"@, "Load Settings"@);
    }
    assert("tx.forward_config"@ != "転送設定"@ && "tx.forward_config"@ != "Forward Configurations"@) by {
        reveal_strlit("tx.forward_config");
        reveal_strlit("転送設定");
        reveal_strlit("Forward Configurations");
        assert("tx.forward_config"@[0] == 't');
        assert("転送設定"@[0] == '転');
        assert("Forward Configurations"@[0] == 'F');
        lemma_texts_differ("tx.forward_config"@, "転送設定"@);
        lemma_texts_differ("tx.forward_config"@, "Forward Configurations"@);
    }
    assert("tx.add_forward"@ != "転送を追加"@ && "tx.add_forward"@ != "Add Forward"@) by {
        reveal_strlit("tx.add_forward");
        reveal_strlit("転送を追加");
        reveal_strlit("Add Forward");
        assert("tx.add_forward"@[0] == 't');
        assert("転送を追加"@[0] == '転');
        assert("Add Forward"@[0] == 'A');
        lemma_texts_differ("tx.add_forward"@, "転送を追加"@);
        lemma_texts_differ("tx.add_forward"@, "Add Forward"@);
    }
    assert("tx.rx_channel"@ != "受信チャンネル:"@ && "tx.rx_channel"@ != "Rx Channel:"@) by {
        reveal_strlit("tx.rx_channel");
        reveal_strlit("受信チャンネル:");
        reveal_strlit("Rx Channel:");
        assert("tx.rx_channel"@[0] == 't');
        assert("受信チャンネル:"@[0] == '受');
        assert("Rx Channel:"@[0] == 'R');
        lemma_texts_differ("tx.rx_channel"@, "受信チャンネル:"@);
        lemma_texts_differ("tx.rx_channel"@, "Rx Channel:"@);
    }
    assert("tx.tx_channel"@ != "送信チャンネル:"@ && "tx.tx_channel"@ != "Tx Channel:"@) by {
        reveal_strlit("tx.tx_channel");
        reveal_strlit("送信チャンネル:");
        reveal_strlit("Tx Channel:");
        assert("tx.tx_channel"@[0] == 't');
        assert("送信チャンネル:"@[0] == '送');
        assert("Tx Channel:"@[0] == 'T');
        lemma_texts_differ("tx.tx_channel"@, "送信チャンネル:"@);
        lemma_texts_differ("tx.tx_channel"@, "Tx Channel:"@);
    }
    assert("tx.trapezoidal"@ != "台形波"@ && "tx.trapezoidal"@ != "Trapezoidal Wave"@) by {
        reveal_strlit("tx.trapezoidal");
        reveal_strlit("台形波");
        reveal_strlit("Trapezoidal Wave");
        assert("tx.trapezoidal"@[0] == 't');
        assert("台形波"@[0] == '台');
        assert("Trapezoidal Wave"@[0] == 'T');
        lemma_texts_differ("tx.trapezoidal"@, "台形波"@);
        lemma_texts_differ("tx.trapezoidal"@, "Trapezoidal Wave"@);
    }
    assert("tx.add_trapezoidal"@ != "台形波を追加"@ && "tx.add_trapezoidal"@ != "Add Trapezoidal"@) by {
        reveal_strlit("tx.add_trapezoidal");
        reveal_strlit("台形波を追加");
        reveal_strlit("Add Trapezoidal");
        assert("tx.add_trapezoidal"@[0] == 't');
        assert("台形波を追加"@[0] == '台');
        assert("Add Trapezoidal"@[0] == 'A');
        lemma_texts_differ("tx.add_trapezoidal"@, "台形波を追加"@);
        lemma_texts_differ("tx.add_trapezoidal"@, "Add Trapezoidal"@);
    }
    assert("tx.message_id"@ != "メッセージID (16進):"@ && "tx.message_id"@ != "Message ID (hex):"@) by {
        reveal_strlit("tx.message_id");
        reveal_strlit("メッセージID (16進):");
        reveal_strlit("Message ID (hex):");
        assert("tx.message_id"@[0] == 't');
        assert("メッセージID (16進):"@[0] == 'メ');
        assert("Message ID (hex):"@[0] == 'M');
        lemma_texts_differ("tx.message_id"@, "メッセージID (16進):"@);
        lemma_texts_differ("tx.message_id"@, "Message ID (hex):"@);
    }
    assert("tx.signal"@ != "シグナル:"@ && "tx.signal"@ != "Signal:"@) by {
        reveal_strlit("tx.signal");
        reveal_strlit("シグナル:");
        reveal_strlit("Signal:");
        assert("tx.signal"@[0] == 't');
        assert("シグナル:"@[0] == 'シ');
        assert("Signal:"@[0] == 'S');
        lemma_texts_differ("tx.signal"@, "シグナル:"@);
        lemma_texts_differ("tx.signal"@, "Signal:"@);
    }
    assert("tx.signal_name"@ != "シグナル名:"@ && "tx.signal_name"@ != "Signal name:"@) by {
        reveal_strlit("tx.signal_name");
        reveal_strlit("シグナル名:");
        reveal_strlit("Signal name:");
        assert("tx.signal_name"@[0] == 't');
        assert("シグナル名:"@[0] == 'シ');
        assert("Signal name:"@[0] == 'S');
        lemma_texts_differ("tx.signal_name"@, "シグナル名:"@);
        lemma_texts_differ("tx.signal_name"@, "Signal name:"@);
    }
    assert("tx.initial_value"@ != "初期値:"@ && "tx.initial_value"@ != "Initial value:"@) by {
        reveal_strlit("tx.initial_value");
        reveal_strlit("初期値:");
        reveal_strlit("Initial value:");
        assert("tx.initial_value"@[0] == 't');
        assert("初期値:"@[0] == '初');
        assert("Initial value:"@[0] == 'I');
        lemma_texts_differ("tx.initial_value"@, "初期値:"@);
        lemma_texts_differ("tx.initial_value"@, "Initial value:"@);
    }
    assert("tx.max_value"@ != "最大値:"@ && "tx.max_value"@ != "Max value:"@) by {
        reveal_strlit("tx.max_value");
        reveal_strlit("最大値:");
        reveal_strlit("Max value:");
        assert("tx.max_value"@[0] == 't');
        assert("最大値:"@[0] == '最');
        assert("Max value:"@[0] == 'M');
        lemma_texts_differ("tx.max_value"@, "最大値:"@);
        lemma_texts_differ("tx.max_value"@, "Max value:"@);
    }
    assert("tx.rate"@ != "変化率 (値/秒):"@ && "tx.rate"@ != "Rate (value/s):"@) by {
        reveal_strlit("tx.rate");
        reveal_strlit("変化率 (値/秒):");
        reveal_strlit("Rate (value/s):");
        assert("tx.rate"@[0] == 't');
        assert("変化率 (値/秒):"@[0] == '変');
        assert("Rate (value/s):"@[0] == 'R');
        lemma_texts_differ("tx.rate"@, "変化率 (値/秒):"@);
        lemma_texts_differ("tx.rate"@, "Rate (value/s):"@);
    }
    assert("tx.hold_time"@ != "保持時間 (ms):"@ && "tx.hold_time"@ != "Hold time (ms):"@) by {
        reveal_strlit("tx.hold_time");
        reveal_strlit("保持時間 (ms):");
        reveal_strlit("Hold time (ms):");
        assert("tx.hold_time"@[0] == 't');
        assert("保持時間 (ms):"@[0] == '保');
        assert("Hold time (ms):"@[0] == 'H');
        lemma_texts_differ("tx.hold_time"@, "保持時間 (ms):"@);
        lemma_texts_differ("tx.hold_time"@, "Hold time (ms):"@);
    }
    assert("tx.cycle_time"@ != "周期 (ms):"@ && "tx.cycle_time"@ != "Cycle time (ms):"@) by {
        reveal_strlit("tx.cycle_time");
        reveal_strlit("周期 (ms):");
        reveal_strlit("Cycle time (ms):");
        assert("tx.cycle_time"@[0] == 't');
        assert("周期 (ms):"@[0] == '周');
        assert("Cycle time (ms):"@[0] == 'C');
        lemma_texts_differ("tx.cycle_time"@, "周期 (ms):"@);
        lemma_texts_differ("tx.cycle_time"@, "Cycle time (ms):"@);
    }
    assert("tx.repeat"@ != "繰り返し"@ && "tx.repeat"@ != "Repeat"@) by {
        reveal_strlit("tx.repeat");
        reveal_strlit("繰り返し");
        reveal_strlit("Repeat");
        assert("tx.repeat"@[0] == 't');
        assert("繰り返し"@[0] == '繰');
        assert("Repeat"@[0] == 'R');
        lemma_texts_differ("tx.repeat"@, "繰り返し"@);
        lemma_texts_differ("tx.repeat"@, "Repeat"@);
    }
    assert("tx.enable"@ != "有効"@ && "tx.enable"@ != "Enable"@) by {
        reveal_strlit("tx.enable");
        reveal_strlit("有効");
        reveal_strlit("Enable");
        assert("tx.enable"@[0] == 't');
        assert("有効"@[0] == '有');
        assert("Enable"@[0] == 'E');
        lemma_texts_differ("tx.enable"@, "有効"@);
        lemma_texts_differ("tx.enable"@, "Enable"@);
    }
    assert("tx.signal_modifications"@ != "シグナル変更"@ && "tx.signal_modifications"@ != "Signal Modifications"@) by {
        reveal_strlit("tx.signal_modifications");
        reveal_strlit("シグナル変更");
        reveal_strlit("Signal Modifications");
        assert("tx.signal_modifications"@[0] == 't');
        assert("シグナル変更"@[0] == 'シ');
        assert("Signal Modifications"@[0] == 'S');
        lemma_texts_differ("tx.signal_modifications"@, "シグナル変更"@);
        lemma_texts_differ("tx.signal_modifications"@, "Signal Modifications"@);
    }
    assert("tx.add_modification"@ != "変更を追加"@ && "tx.add_modification"@ != "Add Modification"@) by {
        reveal_strlit("tx.add_modification");
        reveal_strlit("変更を追加");
        reveal_strlit("Add Modification");
        assert("tx.add_modification"@[0] == 't');
        assert("変更を追加"@[0] == '変');
        assert("Add Modification"@[0] == 'A');
        lemma_texts_differ("tx.add_modification"@, "変更を追加"@);
        lemma_texts_differ("tx.add_modification"@, "Add Modification"@);
    }
    assert("tx.msg"@ != "Msg:"@ && "tx.msg"@ != "Msg:"@) by {
        reveal_strlit("tx.msg");
        reveal_strlit("Msg:");
        reveal_strlit("Msg:");
        assert("tx.msg"@[0] == 't');
        assert("Msg:"@[0] == 'M');
        assert("Msg:"@[0] == 'M');
        lemma_texts_differ("tx.msg"@, "Msg:"@);
        lemma_texts_differ("tx.msg"@, "Msg:"@);
    }
    assert("tx.sig"@ != "Sig:"@ && "tx.sig"@ != "Sig:"@) by {
        reveal_strlit("tx.sig");
        reveal_strlit("Sig:");
        reveal_strlit("Sig:");
        assert("tx.sig"@[0] == 't');
        assert("Sig:"@[0] == 'S');
        assert("Sig:"@[0] == 'S');
        lemma_texts_differ("tx.sig"@, "Sig:"@);
        lemma_texts_differ("tx.sig"@, "Sig:"@);
    }
    assert("tx.val"@ != "値:"@ && "tx.val"@ != "Val:"@) by {
        reveal_strlit("tx.val");
        reveal_strlit("値:");
        reveal_strlit("Val:");
        assert("tx.val"@[0] == 't');
        assert("値:"@[0] == '値');
        assert("Val:"@[0] == 'V');
        lemma_texts_differ("tx.val"@, "値:"@);
        lemma_texts_differ("tx.val"@, "Val:"@);
    }
    assert("panel.title"@ != "パネルエディタ"@ && "panel.title"@ != "Panel Editor"@) by {
        reveal_strlit("panel.title");
        reveal_strlit("パネルエディタ");
        reveal_strlit("Panel Editor");
        assert("panel.title"@[0] == 'p');
        assert("パネルエディタ"@[0] == 'パ');
        assert("Panel Editor"@[0] == 'P');
        lemma_texts_differ("panel.title"@, "パネルエディタ"@);
        lemma_texts_differ("panel.title"@, "Panel Editor"@);
    }
    assert("panel.new"@ != "新規パネル"@ && "panel.new"@ != "New Panel"@) by {
        reveal_strlit("panel.new");
        reveal_strlit("新規パネル");
        reveal_strlit("New Panel");
        assert("panel.new"@[0] == 'p');
        assert("新規パネル"@[0] == '新');
        assert("New Panel"@[0] == 'N');
        lemma_texts_differ("panel.new"@, "新規パネル"@);
        lemma_texts_differ("panel.new"@, "New Panel"@);
    }
    assert("panel.name"@ != "パネル名:"@ && "panel.name"@ != "Panel name:"@) by {
        reveal_strlit("panel.name");
        reveal_strlit("パネル名:");
        reveal_strlit("Panel name:");
        assert("panel.name"@[0] == 'p');
        assert("パネル名:"@[0] == 'パ');
        assert("Panel name:"@[0] == 'P');
        lemma_texts_differ("panel.name"@, "パネル名:"@);
        lemma_texts_differ("panel.name"@, "Panel name:"@);
    }
    assert("panel.add_widget"@ != "ウィジェット追加:"@ && "panel.add_widget"@ != "Add widget:"@) by {
        reveal_strlit("panel.add_widget");
        reveal_strlit("ウィジェット追加:");
        reveal_strlit("Add widget:");
        assert("panel.add_widget"@[0] == 'p');
        assert("ウィジェット追加:"@[0] == 'ウ');
        assert("Add widget:"@[0] == 'A');
        lemma_texts_differ("panel.add_widget"@, "ウィジェット追加:"@);
        lemma_texts_differ("panel.add_widget"@, "Add widget:"@);
    }
    assert("panel.switch"@ != "スイッチ"@ && "panel.switch"@ != "Switch"@) by {
        reveal_strlit("panel.switch");
        reveal_strlit("スイッチ");
        reveal_strlit("Switch");
        assert("panel.switch"@[0] == 'p');
        assert("スイッチ"@[0] == 'ス');
        assert("Switch"@[0] == 'S');
        lemma_texts_differ("panel.switch"@, "スイッチ"@);
        lemma_texts_differ("panel.switch"@, "Switch"@);
    }
    assert("panel.value_box"@ != "数値ボックス"@ && "panel.value_box"@ != "ValueBox"@) by {
        reveal_strlit("panel.value_box");
        reveal_strlit("数値ボックス");
        reveal_strlit("ValueBox");
        assert("panel.value_box"@[0] == 'p');
        assert("数値ボックス"@[0] == '数');
        assert("ValueBox"@[0] == 'V');
        lemma_texts_differ("panel.value_box"@, "数値ボックス"@);
        lemma_texts_differ("panel.value_box"@, "ValueBox"@);
    }
    assert("panel.select_box"@ != "セレクトボックス"@ && "panel.select_box"@ != "SelectBox"@) by {
        reveal_strlit("panel.select_box");
        reveal_strlit("セレクトボックス");
        reveal_strlit("SelectBox");
        assert("panel.select_box"@[0] == 'p');
        assert("セレクトボックス"@[0] == 'セ');
        assert("SelectBox"@[0] == 'S');
        lemma_texts_differ("panel.select_box"@, "セレクトボックス"@);
        lemma_texts_differ("panel.select_box"@, "SelectBox"@);
    }
    assert("panel.label"@ != "ラベル"@ && "panel.label"@ != "Label"@) by {
        reveal_strlit("panel.label");
        reveal_strlit("ラベル");
        reveal_strlit("Label");
        assert("panel.label"@[0] == 'p');
        assert("ラベル"@[0] == 'ラ');
        assert("Label"@[0] == 'L');
        lemma_texts_differ("panel.label"@, "ラベル"@);
        lemma_texts_differ("panel.label"@, "Label"@);
    }
    assert("panel.add"@ != "追加"@ && "panel.add"@ != "Add"@) by {
        reveal_strlit("panel.add");
        reveal_strlit("追加");
        reveal_strlit("Add");
        assert("panel.add"@[0] == 'p');
        assert("追加"@[0] == '追');
        assert("Add"@[0] == 'A');
        lemma_texts_differ("panel.add"@, "追加"@);
        lemma_texts_differ("panel.add"@, "Add"@);
    }
    assert("panel.label_field"@ != "ラベル:"@ && "panel.label_field"@ != "Label:"@) by {
        reveal_strlit("panel.label_field");
        reveal_strlit("ラベル:");
        reveal_strlit("Label:");
        assert("panel.label_field"@[0] == 'p');
        assert("ラベル:"@[0] == 'ラ');
        assert("Label:"@[0] == 'L');
        lemma_texts_differ("panel.label_field"@, "ラベル:"@);
        lemma_texts_differ("panel.label_field"@, "Label:"@);
    }
    assert("panel.on_action"@ != "ONアクション"@ && "panel.on_action"@ != "ON Action"@) by {
        reveal_strlit("panel.on_action");
        reveal_strlit("ONアクション");
        reveal_strlit("ON Action");
        assert("panel.on_action"@[0] == 'p');
        assert("ONアクション"@[0] == 'O');
        assert("ON Action"@[0] == 'O');
        lemma_texts_differ("panel.on_action"@, "ONアクション"@);
        lemma_texts_differ("panel.on_action"@, "ON Action"@);
    }
    assert("panel.off_action"@ != "OFFアクション"@ && "panel.off_action"@ != "OFF Action"@) by {
        reveal_strlit("panel.off_action");
        reveal_strlit("OFFアクション");
        reveal_strlit("OFF Action");
        assert("panel.off_action"@[0] == 'p');
        assert("OFFアクション"@[0] == 'O');
        assert("OFF Action"@[0] == 'O');
        lemma_texts_differ("panel.off_action"@, "OFFアクション"@);
        lemma_texts_differ("panel.off_action"@, "OFF Action"@);
    }
    assert("panel.message"@ != "メッセージ:"@ && "panel.message"@ != "Message:"@) by {
        reveal_strlit("panel.message");
        reveal_strlit("メッセージ:");
        reveal_strlit("Message:");
        assert("panel.message"@[0] == 'p');
        assert("メッセージ:"@[0] == 'メ');
        assert("Message:"@[0] == 'M');
        lemma_texts_differ("panel.message"@, "メッセージ:"@);
        lemma_texts_differ("panel.message"@, "Message:"@);
    }
    assert("panel.msg_id"@ != "Msg ID:"@ && "panel.msg_id"@ != "Msg ID:"@) by {
        reveal_strlit("panel.msg_id");
        reveal_strlit("Msg ID:");
        reveal_strlit("Msg ID:");
        assert("panel.msg_id"@[0] == 'p');
        assert("Msg ID:"@[0] == 'M');
        assert("Msg ID:"@[0] == 'M');
        lemma_texts_differ("panel.msg_id"@, "Msg ID:"@);
        lemma_texts_differ("panel.msg_id"@, "Msg ID:"@);
    }
    assert("panel.value"@ != "値:"@ && "panel.value"@ != "Value:"@) by {
        reveal_strlit("panel.value");
        reveal_strlit("値:");
        reveal_strlit("Value:");
        assert("panel.value"@[0] == 'p');
        assert("値:"@[0] == '値');
        assert("Value:"@[0] == 'V');
        lemma_texts_differ("panel.value"@, "値:"@);
        lemma_texts_differ("panel.value"@, "Value:"@);
    }
    assert("panel.text"@ != "テキスト:"@ && "panel.text"@ != "Text:"@) by {
        reveal_strlit("panel.text");
        reveal_strlit("テキスト:");
        reveal_strlit("Text:");
        assert("panel.text"@[0] == 'p');
        assert("テキスト:"@[0] == 'テ');
        assert("Text:"@[0] == 'T');
        lemma_texts_differ("panel.text"@, "テキスト:"@);
        lemma_texts_differ("panel.text"@, "Text:"@);
    }
    assert("panel.font_size"@ != "フォントサイズ:"@ && "panel.font_size"@ != "Font size:"@) by {
        reveal_strlit("panel.font_size");
        reveal_strlit("フォントサイズ:");
        reveal_strlit("Font size:");
        assert("panel.font_size"@[0] == 'p');
        assert("フォントサイズ:"@[0] == 'フ');
        assert("Font size:"@[0] == 'F');
        lemma_texts_differ("panel.font_size"@, "フォントサイズ:"@);
        lemma_texts_differ("panel.font_size"@, "Font size:"@);
    }
    assert("panel.options"@ != "オプション:"@ && "panel.options"@ != "Options:"@) by {
        reveal_strlit("panel.options");
        reveal_strlit("オプション:");
        reveal_strlit("Options:");
        assert("panel.options"@[0] == 'p');
        assert("オプション:"@[0] == 'オ');
        assert("Options:"@[0] == 'O');
        lemma_texts_differ("panel.options"@, "オプション:"@);
        lemma_texts_differ("panel.options"@, "Options:"@);
    }
    assert("panel.new_option"@ != "新規オプション"@ && "panel.new_option"@ != "New Option"@) by {
        reveal_strlit("panel.new_option");
        reveal_strlit("新規オプション");
        reveal_strlit("New Option");
        assert("panel.new_option"@[0] == 'p');
        assert("新規オプション"@[0] == '新');
        assert("New Option"@[0] == 'N');
        lemma_texts_differ("panel.new_option"@, "新規オプション"@);
        lemma_texts_differ("panel.new_option"@, "New Option"@);
    }
    assert("panel.add_option"@ != "+ オプション"@ && "panel.add_option"@ != "+ Option"@) by {
        reveal_strlit("panel.add_option");
        reveal_strlit("+ オプション");
        reveal_strlit("+ Option");
        assert("panel.add_option"@[0] == 'p');
        assert("+ オプション"@[0] == '+');
        assert("+ Option"@[0] == '+');
        lemma_texts_differ("panel.add_option"@, "+ オプション"@);
        lemma_texts_differ("panel.add_option"@, "+ Option"@);
    }
    assert("panel.enabled"@ != "有効"@ && "panel.enabled"@ != "Enabled"@) by {
        reveal_strlit("panel.enabled");
        reveal_strlit("有効");
        reveal_strlit("Enabled");
        assert("panel.enabled"@[0] == 'p');
        assert("有効"@[0] == '有');
        assert("Enabled"@[0] == 'E');
        lemma_texts_differ("panel.enabled"@, "有効"@);
        lemma_texts_differ("panel.enabled"@, "Enabled"@);
    }
    assert("file.asc"@ != "ASCファイル"@ && "file.asc"@ != "ASC files"@) by {
        reveal_strlit("file.asc");
        reveal_strlit("ASCファイル");
        reveal_strlit("ASC files");
        assert("file.asc"@[0] == 'f');
        assert("ASCファイル"@[0] == 'A');
        assert("ASC files"@[0] == 'A');
        lemma_texts_differ("file.asc"@, "ASCファイル"@);
        lemma_texts_differ("file.asc"@, "ASC files"@);
    }
    assert("file.blf"@ != "BLFファイル"@ && "file.blf"@ != "BLF files"@) by {
        reveal_strlit("file.blf");
        reveal_strlit("BLFファイル");
        reveal_strlit("BLF files");
        assert("file.blf"@[0] == 'f');
        assert("BLFファイル"@[0] == 'B');
        assert("BLF files"@[0] == 'B');
        lemma_texts_differ("file.blf"@, "BLFファイル"@);
        lemma_texts_differ("file.blf"@, "BLF files"@);
    }
    assert("file.dbc"@ != "DBCファイル"@ && "file.dbc"@ != "DBC files"@) by {
        reveal_strlit("file.dbc");
        reveal_strlit("DBCファイル");
        reveal_strlit("DBC files");
        assert("file.dbc"@[0] == 'f');
        assert("DBCファイル"@[0] == 'D');
        assert("DBC files"@[0] == 'D');
        lemma_texts_differ("file.dbc"@, "DBCファイル"@);
        lemma_texts_differ("file.dbc"@, "DBC files"@);
    }
    assert("file.tx_settings"@ != "送信設定"@ && "file.tx_settings"@ != "TX Settings"@) by {
        reveal_strlit("file.tx_settings");
        reveal_strlit("送信設定");
        reveal_strlit("TX Settings");
        assert("file.tx_settings"@[0] == 'f');
        assert("送信設定"@[0] == '送');
        assert("TX Settings"@[0] == 'T');
        lemma_texts_differ("file.tx_settings"@, "送信設定"@);
        lemma_texts_differ("file.tx_settings"@, "TX Settings"@);
    }
    assert("file.log_files"@ != "ログファイル"@ && "file.log_files"@ != "Log files"@) by {
        reveal_strlit("file.log_files");
        reveal_strlit("ログファイル");
        reveal_strlit("Log files");
        assert("file.log_files"@[0] == 'f');
        assert("ログファイル"@[0] == 'ロ');
        assert("Log files"@[0] == 'L');
        lemma_texts_differ("file.log_files"@, "ログファイル"@);
        lemma_texts_differ("file.log_files"@, "Log files"@);
    }
}

/// `t` gives a key back unchanged, in every language, exactly when the
/// user interface has no text for it: an unknown key is its own text, a
/// known one is translated.
pub proof fn lemma_unknown_keys(locale: Locale, key: Seq<char>)
    ensures
        (text_for(locale, key) == key) == !translated(key),
{
    lemma_texts_of(key);
}

/// Both languages translate exactly the same keys: `t` gives a key back
/// unchanged in Japanese exactly when it does in English.
pub proof fn lemma_same_keys(key: Seq<char>)
    ensures
        (text_for(Locale::Japanese, key) == key) == (text_for(Locale::English, key) == key),
{
    lemma_texts_of(key);
}

/// The Japanese text of `key`.
fn t_ja<'a>(key: &'a str) -> (r: &'a str)
    ensures
        r@ == ja_text(key@),
{
    if str_eq(key, "app.title") {
        "CANkoro - CAN/CAN-FD 解析ツール"
    } else if str_eq(key, "app.name") {
        "CANkoro"
    } else if str_eq(key, "app.connect") {
        "接続"
    } else if str_eq(key, "app.disconnect") {
        "切断"
    } else if str_eq(key, "app.start_logging") {
        "ログ開始"
    } else if str_eq(key, "app.stop_logging") {
        "ログ停止"
    } else if str_eq(key, "app.connected") {
        "接続済み"
    } else if str_eq(key, "app.disconnected") {
        "未接続"
    } else if str_eq(key, "app.rec") {
        "REC"
    } else if str_eq(key, "app.language") {
        "言語"
    } else if str_eq(key, "err.driver_not_available") {
        "Vectorドライバーが利用できません"
    } else if str_eq(key, "err.no_channels_enabled") {
        "チャンネルが有効になっていません"
    } else if str_eq(key, "err.activate_failed") {
        "アクティベート失敗"
    } else if str_eq(key, "err.open_port_failed") {
        "ポートオープン失敗"
    } else if str_eq(key, "err.dbc_load_error") {
        "DBCロードエラー"
    } else if str_eq(key, "err.blf_open_error") {
        "BLFオープンエラー"
    } else if str_eq(key, "err.asc_open_error") {
        "ASCオープンエラー"
    } else if str_eq(key, "tab.channel_config") {
        "チャンネル設定"
    } else if str_eq(key, "tab.can_log") {
        "CANログ"
    } else if str_eq(key, "tab.graph") {
        "グラフ"
    } else if str_eq(key, "tab.tx_config") {
        "送信設定"
    } else if str_eq(key, "tab.tx_panels") {
        "送信パネル"
    } else if str_eq(key, "tab.panel_editor") {
        "パネルエディタ"
    } else if str_eq(key, "ch.title") {
        "チャンネル設定"
    } else if str_eq(key, "ch.dbc_file") {
        "DBCファイル:"
    } else if str_eq(key, "ch.none") {
        "(なし)"
    } else if str_eq(key, "ch.browse") {
        "参照..."
    } else if str_eq(key, "ch.no_channels") {
        "CANチャンネルが検出されませんでした。Vectorハードウェアの接続を確認してください。"
    } else if str_eq(key, "ch.mode") {
        "モード:"
    } else if str_eq(key, "ch.can") {
        "CAN"
    } else if str_eq(key, "ch.can_fd") {
        "CAN FD"
    } else if str_eq(key, "ch.bitrate") {
        "ビットレート:"
    } else if str_eq(key, "ch.data_bitrate") {
        "データビットレート:"
    } else if str_eq(key, "ch.transceiver") {
        "トランシーバー:"
    } else if str_eq(key, "log.title") {
        "CANログ"
    } else if str_eq(key, "log.total") {
        "合計"
    } else if str_eq(key, "log.displayed") {
        "表示"
    } else if str_eq(key, "log.auto_scroll") {
        "自動スクロール"
    } else if str_eq(key, "log.pause") {
        "一時停止"
    } else if str_eq(key, "log.resume") {
        "再開"
    } else if str_eq(key, "log.clear") {
        "クリア"
    } else if str_eq(key, "log.id_filter") {
        "IDフィルタ:"
    } else if str_eq(key, "log.timestamp") {
        "タイムスタンプ"
    } else if str_eq(key, "log.channel") {
        "Ch"
    } else if str_eq(key, "log.direction") {
        "方向"
    } else if str_eq(key, "log.id") {
        "ID"
    } else if str_eq(key, "log.dlc") {
        "DLC"
    } else if str_eq(key, "log.fd") {
        "FD"
    } else if str_eq(key, "log.brs") {
        "BRS"
    } else if str_eq(key, "log.data") {
        "データ"
    } else if str_eq(key, "log.rx") {
        "Rx"
    } else if str_eq(key, "log.tx") {
        "Tx"
    } else if str_eq(key, "graph.title") {
        "シグナルグラフ"
    } else if str_eq(key, "graph.realtime") {
        "リアルタイム"
    } else if str_eq(key, "graph.playback") {
        "再生"
    } else if str_eq(key, "graph.select_signals") {
        "シグナル選択"
    } else if str_eq(key, "graph.fit_all") {
        "全体表示"
    } else if str_eq(key, "graph.auto_scroll") {
        "自動スクロール"
    } else if str_eq(key, "graph.c1") {
        "C1"
    } else if str_eq(key, "graph.c2") {
        "C2"
    } else if str_eq(key, "graph.diff") {
        "差分"
    } else if str_eq(key, "graph.clear_data") {
        "データクリア"
    } else if str_eq(key, "graph.load_log") {
        "ログ読込"
    } else if str_eq(key, "graph.play") {
        "再生"
    } else if str_eq(key, "graph.pause") {
        "一時停止"
    } else if str_eq(key, "graph.stop") {
        "停止"
    } else if str_eq(key, "graph.speed") {
        "速度:"
    } else if str_eq(key, "graph.frame") {
        "フレーム"
    } else if str_eq(key, "graph.cursor_analysis") {
        "カーソル解析"
    } else if str_eq(key, "graph.signal") {
        "シグナル"
    } else if str_eq(key, "graph.c1_value") {
        "C1値"
    } else if str_eq(key, "graph.c2_value") {
        "C2値"
    } else if str_eq(key, "graph.delta") {
        "差分"
    } else if str_eq(key, "graph.unit") {
        "単位"
    } else if str_eq(key, "graph.signal_selection") {
        "シグナル選択"
    } else if str_eq(key, "graph.no_dbc") {
        "DBCファイルが読み込まれていません。先にDBCファイルを読み込んでください。"
    } else if str_eq(key, "graph.time_axis") {
        "時間 [s]"
    } else if str_eq(key, "tx.title") {
        "送信設定"
    } else if str_eq(key, "tx.save") {
        "設定を保存"
    } else if str_eq(key, "tx.load") {
        "設定を読込"
    } else if str_eq(key, "tx.forward_config") {
        "転送設定"
    } else if str_eq(key, "tx.add_forward") {
        "転送を追加"
    } else if str_eq(key, "tx.rx_channel") {
        "受信チャンネル:"
    } else if str_eq(key, "tx.tx_channel") {
        "送信チャンネル:"
    } else if str_eq(key, "tx.trapezoidal") {
        "台形波"
    } else if str_eq(key, "tx.add_trapezoidal") {
        "台形波を追加"
    } else if str_eq(key, "tx.message_id") {
        "メッセージID (16進):"
    } else if str_eq(key, "tx.signal") {
        "シグナル:"
    } else if str_eq(key, "tx.signal_name") {
        "シグナル名:"
    } else if str_eq(key, "tx.initial_value") {
        "初期値:"
    } else if str_eq(key, "tx.max_value") {
        "最大値:"
    } else if str_eq(key, "tx.rate") {
        "変化率 (値/秒):"
    } else if str_eq(key, "tx.hold_time") {
        "保持時間 (ms):"
    } else if str_eq(key, "tx.cycle_time") {
        "周期 (ms):"
    } else if str_eq(key, "tx.repeat") {
        "繰り返し"
    } else if str_eq(key, "tx.enable") {
        "有効"
    } else if str_eq(key, "tx.signal_modifications") {
        "シグナル変更"
    } else if str_eq(key, "tx.add_modification") {
        "変更を追加"
    } else if str_eq(key, "tx.msg") {
        "Msg:"
    } else if str_eq(key, "tx.sig") {
        "Sig:"
    } else if str_eq(key, "tx.val") {
        "値:"
    } else if str_eq(key, "panel.title") {
        "パネルエディタ"
    } else if str_eq(key, "panel.new") {
        "新規パネル"
    } else if str_eq(key, "panel.name") {
        "パネル名:"
    } else if str_eq(key, "panel.add_widget") {
        "ウィジェット追加:"
    } else if str_eq(key, "panel.switch") {
        "スイッチ"
    } else if str_eq(key, "panel.value_box") {
        "数値ボックス"
    } else if str_eq(key, "panel.select_box") {
        "セレクトボックス"
    } else if str_eq(key, "panel.label") {
        "ラベル"
    } else if str_eq(key, "panel.add") {
        "追加"
    } else if str_eq(key, "panel.label_field") {
        "ラベル:"
    } else if str_eq(key, "panel.on_action") {
        "ONアクション"
    } else if str_eq(key, "panel.off_action") {
        "OFFアクション"
    } else if str_eq(key, "panel.message") {
        "メッセージ:"
    } else if str_eq(key, "panel.msg_id") {
        "Msg ID:"
    } else if str_eq(key, "panel.value") {
        "値:"
    } else if str_eq(key, "panel.text") {
        "テキスト:"
    } else if str_eq(key, "panel.font_size") {
        "フォントサイズ:"
    } else if str_eq(key, "panel.options") {
        "オプション:"
    } else if str_eq(key, "panel.new_option") {
        "新規オプション"
    } else if str_eq(key, "panel.add_option") {
        "+ オプション"
    } else if str_eq(key, "panel.enabled") {
        "有効"
    } else if str_eq(key, "file.asc") {
        "ASCファイル"
    } else if str_eq(key, "file.blf") {
        "BLFファイル"
    } else if str_eq(key, "file.dbc") {
        "DBCファイル"
    } else if str_eq(key, "file.tx_settings") {
        "送信設定"
    } else if str_eq(key, "file.log_files") {
        "ログファイル"
    } else {
        key
    }
}

/// The English text of `key`.
fn t_en<'a>(key: &'a str) -> (r: &'a str)
    ensures
        r@ == en_text(key@),
{
    if str_eq(key, "app.title") {
        "CANkoro - CAN/CAN-FD Analysis Tool"
    } else if str_eq(key, "app.name") {
        "CANkoro"
    } else if str_eq(key, "app.connect") {
        "Connect"
    } else if str_eq(key, "app.disconnect") {
        "Disconnect"
    } else if str_eq(key, "app.start_logging") {
        "Start Logging"
    } else if str_eq(key, "app.stop_logging") {
        "Stop Logging"
    } else if str_eq(key, "app.connected") {
        "Connected"
    } else if str_eq(key, "app.disconnected") {
        "Disconnected"
    } else if str_eq(key, "app.rec") {
        "REC"
    } else if str_eq(key, "app.language") {
        "Language"
    } else if str_eq(key, "err.driver_not_available") {
        "Vector driver not available"
    } else if str_eq(key, "err.no_channels_enabled") {
        "No channels enabled"
    } else if str_eq(key, "err.activate_failed") {
        "Activate failed"
    } else if str_eq(key, "err.open_port_failed") {
        "Open port failed"
    } else if str_eq(key, "err.dbc_load_error") {
        "DBC load error"
    } else if str_eq(key, "err.blf_open_error") {
        "BLF open error"
    } else if str_eq(key, "err.asc_open_error") {
        "ASC open error"
    } else if str_eq(key, "tab.channel_config") {
        "Channel Config"
    } else if str_eq(key, "tab.can_log") {
        "CAN Log"
    } else if str_eq(key, "tab.graph") {
        "Graph"
    } else if str_eq(key, "tab.tx_config") {
        "TX Config"
    } else if str_eq(key, "tab.tx_panels") {
        "TX Panels"
    } else if str_eq(key, "tab.panel_editor") {
        "Panel Editor"
    } else if str_eq(key, "ch.title") {
        "Channel Configuration"
    } else if str_eq(key, "ch.dbc_file") {
        "DBC File:"
    } else if str_eq(key, "ch.none") {
        "(None)"
    } else if str_eq(key, "ch.browse") {
        "Browse..."
    } else if str_eq(key, "ch.no_channels") {
        "No CAN channels detected. Please check Vector hardware connection."
    } else if str_eq(key, "ch.mode") {
        "Mode:"
    } else if str_eq(key, "ch.can") {
        "CAN"
    } else if str_eq(key, "ch.can_fd") {
        "CAN FD"
    } else if str_eq(key, "ch.bitrate") {
        "Bitrate:"
    } else if str_eq(key, "ch.data_bitrate") {
        "Data Bitrate:"
    } else if str_eq(key, "ch.transceiver") {
        "Transceiver:"
    } else if str_eq(key, "log.title") {
        "CAN Log"
    } else if str_eq(key, "log.total") {
        "Total"
    } else if str_eq(key, "log.displayed") {
        "Displayed"
    } else if str_eq(key, "log.auto_scroll") {
        "Auto-scroll"
    } else if str_eq(key, "log.pause") {
        "Pause"
    } else if str_eq(key, "log.resume") {
        "Resume"
    } else if str_eq(key, "log.clear") {
        "Clear"
    } else if str_eq(key, "log.id_filter") {
        "ID Filter:"
    } else if str_eq(key, "log.timestamp") {
        "Timestamp"
    } else if str_eq(key, "log.channel") {
        "Ch"
    } else if str_eq(key, "log.direction") {
        "Dir"
    } else if str_eq(key, "log.id") {
        "ID"
    } else if str_eq(key, "log.dlc") {
        "DLC"
    } else if str_eq(key, "log.fd") {
        "FD"
    } else if str_eq(key, "log.brs") {
        "BRS"
    } else if str_eq(key, "log.data") {
        "Data"
    } else if str_eq(key, "log.rx") {
        "Rx"
    } else if str_eq(key, "log.tx") {
        "Tx"
    } else if str_eq(key, "graph.title") {
        "Signal Graph"
    } else if str_eq(key, "graph.realtime") {
        "Realtime"
    } else if str_eq(key, "graph.playback") {
        "Playback"
    } else if str_eq(key, "graph.select_signals") {
        "Select Signals"
    } else if str_eq(key, "graph.fit_all") {
        "Fit All"
    } else if str_eq(key, "graph.auto_scroll") {
        "Auto-scroll"
    } else if str_eq(key, "graph.c1") {
        "C1"
    } else if str_eq(key, "graph.c2") {
        "C2"
    } else if str_eq(key, "graph.diff") {
        "Diff"
    } else if str_eq(key, "graph.clear_data") {
        "Clear Data"
    } else if str_eq(key, "graph.load_log") {
        "Load Log"
    } else if str_eq(key, "graph.play") {
        "Play"
    } else if str_eq(key, "graph.pause") {
        "Pause"
    } else if str_eq(key, "graph.stop") {
        "Stop"
    } else if str_eq(key, "graph.speed") {
        "Speed:"
    } else if str_eq(key, "graph.frame") {
        "Frame"
    } else if str_eq(key, "graph.cursor_analysis") {
        "Cursor Analysis"
    } else if str_eq(key, "graph.signal") {
        "Signal"
    } else if str_eq(key, "graph.c1_value") {
        "C1 Value"
    } else if str_eq(key, "graph.c2_value") {
        "C2 Value"
    } else if str_eq(key, "graph.delta") {
        "Delta"
    } else if str_eq(key, "graph.unit") {
        "Unit"
    } else if str_eq(key, "graph.signal_selection") {
        "Signal Selection"
    } else if str_eq(key, "graph.no_dbc") {
        "No DBC file loaded. Please load a DBC file first."
    } else if str_eq(key, "graph.time_axis") {
        "Time [s]"
    } else if str_eq(key, "tx.title") {
        "Transmission Configuration"
    } else if str_eq(key, "tx.save") {
        "Save Settings"
    } else if str_eq(key, "tx.load") {
        "Load Settings"
    } else if str_eq(key, "tx.forward_config") {
        "Forward Configurations"
    } else if str_eq(key, "tx.add_forward") {
        "Add Forward"
    } else if str_eq(key, "tx.rx_channel") {
        "Rx Channel:"
    } else if str_eq(key, "tx.tx_channel") {
        "Tx Channel:"
    } else if str_eq(key, "tx.trapezoidal") {
        "Trapezoidal Wave"
    } else if str_eq(key, "tx.add_trapezoidal") {
        "Add Trapezoidal"
    } else if str_eq(key, "tx.message_id") {
        "Message ID (hex):"
    } else if str_eq(key, "tx.signal") {
        "Signal:"
    } else if str_eq(key, "tx.signal_name") {
        "Signal name:"
    } else if str_eq(key, "tx.initial_value") {
        "Initial value:"
    } else if str_eq(key, "tx.max_value") {
        "Max value:"
    } else if str_eq(key, "tx.rate") {
        "Rate (value/s):"
    } else if str_eq(key, "tx.hold_time") {
        "Hold time (ms):"
    } else if str_eq(key, "tx.cycle_time") {
        "Cycle time (ms):"
    } else if str_eq(key, "tx.repeat") {
        "Repeat"
    } else if str_eq(key, "tx.enable") {
        "Enable"
    } else if str_eq(key, "tx.signal_modifications") {
        "Signal Modifications"
    } else if str_eq(key, "tx.add_modification") {
        "Add Modification"
    } else if str_eq(key, "tx.msg") {
        "Msg:"
    } else if str_eq(key, "tx.sig") {
        "Sig:"
    } else if str_eq(key, "tx.val") {
        "Val:"
    } else if str_eq(key, "panel.title") {
        "Panel Editor"
    } else if str_eq(key, "panel.new") {
        "New Panel"
    } else if str_eq(key, "panel.name") {
        "Panel name:"
    } else if str_eq(key, "panel.add_widget") {
        "Add widget:"
    } else if str_eq(key, "panel.switch") {
        "Switch"
    } else if str_eq(key, "panel.value_box") {
        "ValueBox"
    } else if str_eq(key, "panel.select_box") {
        "SelectBox"
    } else if str_eq(key, "panel.label") {
        "Label"
    } else if str_eq(key, "panel.add") {
        "Add"
    } else if str_eq(key, "panel.label_field") {
        "Label:"
    } else if str_eq(key, "panel.on_action") {
        "ON Action"
    } else if str_eq(key, "panel.off_action") {
        "OFF Action"
    } else if str_eq(key, "panel.message") {
        "Message:"
    } else if str_eq(key, "panel.msg_id") {
        "Msg ID:"
    } else if str_eq(key, "panel.value") {
        "Value:"
    } else if str_eq(key, "panel.text") {
        "Text:"
    } else if str_eq(key, "panel.font_size") {
        "Font size:"
    } else if str_eq(key, "panel.options") {
        "Options:"
    } else if str_eq(key, "panel.new_option") {
        "New Option"
    } else if str_eq(key, "panel.add_option") {
        "+ Option"
    } else if str_eq(key, "panel.enabled") {
        "Enabled"
    } else if str_eq(key, "file.asc") {
        "ASC files"
    } else if str_eq(key, "file.blf") {
        "BLF files"
    } else if str_eq(key, "file.dbc") {
        "DBC files"
    } else if str_eq(key, "file.tx_settings") {
        "TX Settings"
    } else if str_eq(key, "file.log_files") {
        "Log files"
    } else {
        key
    }
}

} // verus!
