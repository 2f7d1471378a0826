use cankoro::dbc::database::DbcDatabase;
use cankoro::dbc::parser::parse_dbc;
use cankoro::dbc::signal::{ByteOrder, DbcSignal};

const SAMPLE: &str = "VERSION \"\"\n\
\n\
BO_ 256 EngineData: 8 ECU1\n\
 SG_ EngineSpeed : 0|16@1+ (0.25,0) [0|16383.75] \"rpm\" Dashboard\n\
 SG_ Temp : 23|8@0- (1,-40) [-40|215] \"degC\" Dashboard, Gateway\n\
\n\
BO_ 2147484672 ExtMsg: 4 Gateway\n\
 SG_ Counter : 0|4@1+ (1,0) [0|15] \"\" Vector__XXX\n\
\n\
VAL_ 256 EngineSpeed 0 \"Off\" 1 \"Idle\" ;\n\
VAL_ 2147484672 Counter 3 \"Three\"\n\
 4 \"Four\" ;\n";

fn signal(start_bit: u32, bit_length: u32, order: ByteOrder, signed: bool) -> DbcSignal {
    DbcSignal {
        name: "S".to_string(),
        start_bit,
        bit_length,
        byte_order: order,
        is_signed: signed,
        factor: "1".to_string(),
        offset: "0".to_string(),
        min: "0".to_string(),
        max: "0".to_string(),
        unit: String::new(),
        receivers: Vec::new(),
        value_descriptions: None,
    }
}

#[test]
fn parses_messages_signals_and_descriptions() {
    let msgs = parse_dbc(SAMPLE).expect("parse succeeds");
    assert_eq!(msgs.len(), 2);
    let m = &msgs[0];
    assert_eq!(m.id, 256);
    assert_eq!(m.name, "EngineData");
    assert_eq!(m.dlc, 8);
    assert_eq!(m.transmitter, "ECU1");
    assert_eq!(m.signals.len(), 2);
    let s = &m.signals[0];
    assert_eq!(s.name, "EngineSpeed");
    assert_eq!(s.start_bit, 0);
    assert_eq!(s.bit_length, 16);
    assert_eq!(s.byte_order, ByteOrder::LittleEndian);
    assert!(!s.is_signed);
    assert_eq!(s.factor, "0.25");
    assert_eq!(s.offset, "0");
    assert_eq!(s.min, "0");
    assert_eq!(s.max, "16383.75");
    assert_eq!(s.unit, "rpm");
    assert_eq!(s.receivers, vec!["Dashboard".to_string()]);
    let d = s.value_descriptions.as_ref().expect("descriptions attached");
    assert_eq!(d.get(&0).map(|x| x.as_str()), Some("Off"));
    assert_eq!(d.get(&1).map(|x| x.as_str()), Some("Idle"));
    let t = &m.signals[1];
    assert_eq!(t.byte_order, ByteOrder::BigEndian);
    assert!(t.is_signed);
    assert_eq!(t.offset, "-40");
    assert_eq!(t.receivers, vec!["Dashboard".to_string(), "Gateway".to_string()]);
    assert!(t.value_descriptions.is_none());

    let e = &msgs[1];
    assert_eq!(e.id, 1024);
    assert_eq!(e.transmitter, "Gateway");
    let c = &e.signals[0];
    let cd = c.value_descriptions.as_ref().expect("multi-line VAL_ attached");
    assert_eq!(cd.len(), 2);
    assert_eq!(cd.get(&4).map(|x| x.as_str()), Some("Four"));
}

#[test]
fn empty_text_has_no_messages() {
    assert_eq!(parse_dbc("").unwrap().len(), 0);
    assert_eq!(parse_dbc("BO_ x\n").unwrap().len(), 0);
}

#[test]
fn database_lookup() {
    let msgs = parse_dbc(SAMPLE).unwrap();
    let db = DbcDatabase::from_messages(msgs, Some("a.dbc".to_string()));
    assert_eq!(db.messages().len(), 2);
    assert_eq!(db.get_message(256).unwrap().name, "EngineData");
    assert_eq!(db.get_message(1024).unwrap().name, "ExtMsg");
    assert!(db.get_message(7).is_none());
    let names = db.all_signal_names();
    assert_eq!(names.len(), 3);
    assert_eq!(names[0], (256, "EngineData".to_string(), "EngineSpeed".to_string()));
    assert_eq!(names[2], (1024, "ExtMsg".to_string(), "Counter".to_string()));
    assert_eq!(db.file_path.as_deref(), Some("a.dbc"));
}

#[test]
fn message_signal_lookup() {
    let mut msgs = parse_dbc(SAMPLE).unwrap();
    assert_eq!(msgs[0].get_signal("Temp").unwrap().start_bit, 23);
    assert!(msgs[0].get_signal("Nope").is_none());
    msgs[0].get_signal_mut("Temp").unwrap().unit = "K".to_string();
    assert_eq!(msgs[0].signals[1].unit, "K");
    assert!(msgs[0].get_signal_mut("Nope").is_none());
}

#[test]
fn little_endian_extract_and_encode() {
    let s = signal(4, 12, ByteOrder::LittleEndian, false);
    let data = [0xA0u8, 0xCB, 0x00];
    assert_eq!(s.extract_raw(&data), 0xCBA);
    let mut out = vec![0x0Fu8, 0x00, 0xFF];
    s.encode_raw(0x123, &mut out);
    assert_eq!(out, vec![0x3F, 0x12, 0xFF]);
    assert_eq!(s.extract_raw(&out), 0x123);
}

#[test]
fn big_endian_extract_and_encode() {
    // Motorola: start bit 7 is the most significant bit of byte 0.
    let s = signal(7, 16, ByteOrder::BigEndian, false);
    let data = [0x12u8, 0x34];
    assert_eq!(s.extract_raw(&data), 0x1234);
    let mut out = vec![0u8, 0, 0];
    s.encode_raw(0xBEEF, &mut out);
    assert_eq!(out, vec![0xBE, 0xEF, 0x00]);
    let t = signal(23, 8, ByteOrder::BigEndian, true);
    let d = [0u8, 0, 0xF0];
    assert_eq!(t.extract_raw(&d), 0xF0);
    assert_eq!(t.raw_to_integer(0xF0), -16);
}

#[test]
fn bits_beyond_data_read_as_zero_and_are_not_written() {
    let s = signal(12, 8, ByteOrder::LittleEndian, false);
    assert_eq!(s.extract_raw(&[0xFF, 0xFF]), 0x0F);
    let mut out = vec![0u8, 0u8];
    s.encode_raw(0xFF, &mut out);
    assert_eq!(out, vec![0x00, 0xF0]);
}

#[test]
fn signed_integers() {
    let s = signal(0, 8, ByteOrder::LittleEndian, true);
    assert_eq!(s.raw_to_integer(0x7F), 127);
    assert_eq!(s.raw_to_integer(0x80), -128);
    assert_eq!(s.raw_to_integer(0x1FF), -1);
    assert_eq!(s.integer_to_raw(-1), 0xFF);
    assert_eq!(s.integer_to_raw(-128), 0x80);
    assert_eq!(s.integer_to_raw(300), 44);
    let u = signal(0, 8, ByteOrder::LittleEndian, false);
    assert_eq!(u.raw_to_integer(0x80), 128);
    for v in -128i128..128 {
        assert_eq!(s.raw_to_integer(s.integer_to_raw(v)), v);
    }
}

#[test]
fn signal_layouts_that_can_be_read() {
    assert!(signal(0, 64, ByteOrder::LittleEndian, false).layout_valid());
    assert!(!signal(0, 65, ByteOrder::LittleEndian, false).layout_valid());
    assert!(signal(u32::MAX, 1, ByteOrder::LittleEndian, false).layout_valid());
    assert!(!signal(u32::MAX, 2, ByteOrder::LittleEndian, false).layout_valid());
    assert!(signal(u32::MAX, 64, ByteOrder::BigEndian, false).layout_valid());
}
