use cankoro::can::frame::{CanFrame, Direction};
use cankoro::log::asc::{parse_time_ns, read_asc, AscWriter};
use cankoro::log::blf::{blf_sizes_valid, read_blf, BlfWriter, BLF_HEADER_SIZE};
use cankoro::log::reader::LogFormat;

fn chars(s: &str) -> Vec<char> {
    s.chars().collect()
}

#[test]
fn asc_header_text() {
    let h = AscWriter::header("Mon Jan 01 10:00:00 AM 2024");
    assert_eq!(
        h,
        "date Mon Jan 01 10:00:00 AM 2024\nbase hex  timestamps absolute\ninternal events logged\n// CANkoro ASC Log\n"
    );
}

#[test]
fn asc_classic_lines() {
    let mut w = AscWriter::new();
    let f = CanFrame::new_can(1_500_000_000, 0, 0x123, false, 2, &[0xAB, 0x01], Direction::Rx);
    assert_eq!(w.write_frame(&f), "  1.500000 1  123             Rx d 2 ab 01\n");
    let e = CanFrame::new_can(2_000_000_500, 1, 0x1ABCDE, true, 0, &[], Direction::Tx);
    assert_eq!(w.write_frame(&e), "  2.000001 2  001ABCDEx       Tx d 0 \n");
    w.set_start_time(1_000_000_000);
    assert_eq!(w.write_frame(&f), "  0.500000 1  123             Rx d 2 ab 01\n");
}

#[test]
fn asc_fd_line() {
    let w = AscWriter::new();
    let f = CanFrame::new_canfd(250_000, 0, 0x7ab, false, true, 9, &[1, 2, 0xFF], Direction::Tx);
    assert_eq!(
        w.write_frame(&f),
        "  0.000250 CANFD   7ab             Tx d 9 3 1 0 01 02 ff    0    0    0    0    0\n"
    );
}

#[test]
fn asc_time_tokens() {
    assert_eq!(parse_time_ns(&chars("1.5")), Some(1_500_000_000));
    assert_eq!(parse_time_ns(&chars("+0.000001")), Some(1_000));
    assert_eq!(parse_time_ns(&chars("12")), Some(12_000_000_000));
    assert_eq!(parse_time_ns(&chars(".25")), Some(250_000_000));
    assert_eq!(parse_time_ns(&chars("3.")), Some(3_000_000_000));
    assert_eq!(parse_time_ns(&chars("0.1234567891")), Some(123_456_789));
    assert_eq!(parse_time_ns(&chars(".")), None);
    assert_eq!(parse_time_ns(&chars("-1.0")), Some(-1_000_000_000));
    assert_eq!(parse_time_ns(&chars("-0.5")), Some(-500_000_000));
    assert_eq!(parse_time_ns(&chars("-+1")), None);
    assert_eq!(parse_time_ns(&chars("9223372036.854775807")), Some(i64::MAX));
    assert_eq!(parse_time_ns(&chars("9223372036.854775808")), None);
    assert_eq!(parse_time_ns(&chars("-9223372036.854775808")), Some(i64::MIN));
    assert_eq!(parse_time_ns(&chars("1e3")), None);
    assert_eq!(parse_time_ns(&chars("abc")), None);
}

#[test]
fn asc_read_back() {
    let text = "date Mon Jan 01 10:00:00 AM 2024\r\n\
base hex  timestamps absolute\n\
internal events logged\n\
// comment\n\
Begin Triggerblock\n\
  1.500000 1  123             Rx d 2 ab 01\n\
  2.000001 2  001ABCDEx       Tx d 3 01 zz 03 04\n\
  0.000250 CANFD   7ab             Tx d 9 3 1 0 01 02 ff    0    0    0    0    0\n\
  1.0 3 100 Rx r 0\n\
  bad line\n\
End TriggerBlock\n";
    let frames = read_asc(text);
    assert_eq!(frames.len(), 3);
    let a = &frames[0];
    assert_eq!(a.timestamp_ns, 1_500_000_000);
    assert_eq!(a.channel, 0);
    assert_eq!(a.id, 0x123);
    assert!(!a.is_extended && !a.is_fd);
    assert_eq!(a.direction, Direction::Rx);
    assert_eq!(a.data, vec![0xAB, 0x01]);
    let b = &frames[1];
    assert_eq!(b.channel, 1);
    assert_eq!(b.id, 0x1ABCDE);
    assert!(b.is_extended);
    assert_eq!(b.direction, Direction::Tx);
    assert_eq!(b.data, vec![0x01, 0x03]);
    let c = &frames[2];
    assert!(c.is_fd && c.is_brs);
    assert_eq!(c.channel, 0);
    assert_eq!(c.id, 0x7AB);
    assert!(!c.is_extended);
    assert_eq!(c.dlc, 9);
    assert_eq!(c.data, vec![0x01, 0x02, 0xFF]);
}

#[test]
fn asc_write_then_read_classic() {
    let w = AscWriter::new();
    let frames = vec![
        CanFrame::new_can(1_000, 0, 0x10, false, 3, &[1, 2, 3], Direction::Rx),
        CanFrame::new_can(2_000_000, 5, 0x1FFFFFFF, true, 8, &[9; 8], Direction::Tx),
    ];
    let mut text = AscWriter::header("today");
    for f in &frames {
        text.push_str(&w.write_frame(f));
    }
    let back = read_asc(&text);
    assert_eq!(back.len(), 2);
    for (a, b) in frames.iter().zip(back.iter()) {
        assert_eq!(a.timestamp_ns, b.timestamp_ns);
        assert_eq!(a.channel, b.channel);
        assert_eq!(a.id, b.id);
        assert_eq!(a.is_extended, b.is_extended);
        assert_eq!(a.dlc, b.dlc);
        assert_eq!(a.data, b.data);
        assert_eq!(a.direction, b.direction);
    }
}

#[test]
fn log_format_from_extension() {
    assert_eq!(LogFormat::from_extension("asc"), Some(LogFormat::Asc));
    assert_eq!(LogFormat::from_extension("ASC"), Some(LogFormat::Asc));
    assert_eq!(LogFormat::from_extension("Blf"), Some(LogFormat::Blf));
    assert_eq!(LogFormat::from_extension("txt"), None);
    assert_eq!(LogFormat::from_extension("ascx"), None);
    assert_eq!(LogFormat::from_extension(""), None);
}

fn blf_file(frames: &[CanFrame]) -> Vec<u8> {
    let mut w = BlfWriter::new();
    let mut file = vec![0u8; BLF_HEADER_SIZE as usize];
    for f in frames {
        let bytes = w.write_frame(f).expect("container fits");
        file.extend_from_slice(&bytes);
    }
    let tail = w.finalize().expect("container fits");
    file.extend_from_slice(&tail);
    let header = w.file_header(file.len() as u64);
    file[..header.len()].copy_from_slice(&header);
    file
}

#[test]
fn blf_header_fields() {
    let frames = vec![
        CanFrame::new_can(7, 0, 0x1, false, 1, &[1], Direction::Rx),
        CanFrame::new_can(9, 0, 0x2, false, 1, &[2], Direction::Rx),
    ];
    let file = blf_file(&frames);
    assert_eq!(&file[..4], b"BLNK");
    assert_eq!(&file[4..7], &[1, 0, 0]);
    assert_eq!(u32::from_le_bytes(file[7..11].try_into().unwrap()), 144);
    assert_eq!(u64::from_le_bytes(file[23..31].try_into().unwrap()), 7);
    assert_eq!(u64::from_le_bytes(file[31..39].try_into().unwrap()), 9);
    assert_eq!(u32::from_le_bytes(file[39..43].try_into().unwrap()), 2);
    assert_eq!(u64::from_le_bytes(file[47..55].try_into().unwrap()), file.len() as u64);
    assert_eq!(u64::from_le_bytes(file[55..63].try_into().unwrap()), 96 + 144);
    assert_eq!(&file[144..148], b"LOBJ");
}

#[test]
fn blf_roundtrip_classic_frames() {
    let mut frames = Vec::new();
    for i in 0..3000u32 {
        let data: Vec<u8> = (0..(i % 9) as u8).collect();
        frames.push(CanFrame::new_can(
            i as i64 * 1_000,
            (i % 4) as u8,
            i % 0x800,
            i % 3 == 0,
            (i % 9) as u8,
            &data,
            if i % 2 == 0 { Direction::Rx } else { Direction::Tx },
        ));
    }
    let file = blf_file(&frames);
    assert!(blf_sizes_valid(&file));
    let back = read_blf(&file).expect("long enough");
    assert_eq!(back.len(), frames.len());
    for (a, b) in frames.iter().zip(back.iter()) {
        assert_eq!(a.timestamp_ns, b.timestamp_ns);
        assert_eq!(a.channel, b.channel);
        assert_eq!(a.id, b.id);
        assert_eq!(a.is_extended, b.is_extended);
        assert_eq!(a.dlc, b.dlc);
        assert_eq!(a.data, b.data);
        assert_eq!(a.direction, b.direction);
        assert!(!b.is_fd);
    }
}

#[test]
fn blf_fd_frames_in_containers_read_back() {
    let frames = vec![
        CanFrame::new_canfd(1, 0, 0x10, false, true, 9, &[1; 12], Direction::Rx),
        CanFrame::new_can(2, 0, 0x11, false, 1, &[5], Direction::Rx),
        CanFrame::new_canfd(3, 2, 0x1234_5678, true, false, 3, &[7, 8, 9], Direction::Tx),
        CanFrame::new_canfd(4, 1, 0x7FF, false, true, 15, &[0xAA; 64], Direction::Tx),
    ];
    let file = blf_file(&frames);
    assert!(blf_sizes_valid(&file));
    let back = read_blf(&file).unwrap();
    assert_eq!(back.len(), 4);
    for (a, b) in frames.iter().zip(back.iter()) {
        assert_eq!(a.timestamp_ns, b.timestamp_ns);
        assert_eq!(a.channel, b.channel);
        assert_eq!(a.id, b.id);
        assert_eq!(a.is_extended, b.is_extended);
        assert_eq!(a.is_fd, b.is_fd);
        assert_eq!(a.is_brs, b.is_brs);
        assert_eq!(a.dlc, b.dlc);
        assert_eq!(a.data, b.data);
        assert_eq!(a.direction, b.direction);
    }
}

#[test]
fn blf_short_or_foreign_data() {
    assert_eq!(read_blf(&[0u8; 10]).unwrap_err(), "BLF file too small");
    let empty = vec![0u8; 200];
    assert!(blf_sizes_valid(&empty));
    assert_eq!(read_blf(&empty).unwrap().len(), 0);
}

#[test]
fn blf_top_level_message_objects() {
    let mut file = vec![0u8; 144];
    // A classic CAN object outside any container.
    file.extend_from_slice(b"LOBJ");
    file.extend_from_slice(&16u16.to_le_bytes());
    file.extend_from_slice(&1u16.to_le_bytes());
    file.extend_from_slice(&48u32.to_le_bytes());
    file.extend_from_slice(&1u32.to_le_bytes());
    file.extend_from_slice(&123u64.to_le_bytes());
    file.extend_from_slice(&0u64.to_le_bytes());
    file.extend_from_slice(&3u16.to_le_bytes());
    file.push(2);
    file.push(1);
    file.extend_from_slice(&0x8000_0100u32.to_le_bytes());
    file.extend_from_slice(&[0xAA, 0xBB, 0, 0, 0, 0, 0, 0]);
    // A CAN FD object outside any container.
    file.extend_from_slice(b"LOBJ");
    file.extend_from_slice(&16u16.to_le_bytes());
    file.extend_from_slice(&1u16.to_le_bytes());
    file.extend_from_slice(&56u32.to_le_bytes());
    file.extend_from_slice(&100u32.to_le_bytes());
    file.extend_from_slice(&456u64.to_le_bytes());
    file.extend_from_slice(&0u64.to_le_bytes());
    file.extend_from_slice(&1u16.to_le_bytes());
    file.push(9);
    file.push(0);
    file.extend_from_slice(&0x200u32.to_le_bytes());
    file.extend_from_slice(&3u32.to_le_bytes());
    file.extend_from_slice(&[7u8; 12]);
    assert!(blf_sizes_valid(&file));
    let frames = read_blf(&file).unwrap();
    assert_eq!(frames.len(), 2);
    assert_eq!(frames[0].timestamp_ns, 123);
    assert_eq!(frames[0].channel, 3);
    assert_eq!(frames[0].dlc, 2);
    assert_eq!(frames[0].direction, Direction::Tx);
    assert!(frames[0].is_extended);
    assert_eq!(frames[0].id, 0x100);
    assert_eq!(frames[0].data, vec![0xAA, 0xBB]);
    assert!(frames[1].is_fd && frames[1].is_brs);
    assert_eq!(frames[1].data, vec![7u8; 12]);
    assert_eq!(frames[1].direction, Direction::Rx);
}

#[test]
fn blf_inconsistent_sizes_are_reported() {
    let mut file = vec![0u8; 144];
    file.extend_from_slice(b"LOBJ");
    file.extend_from_slice(&16u16.to_le_bytes());
    file.extend_from_slice(&1u16.to_le_bytes());
    file.extend_from_slice(&20u32.to_le_bytes());
    file.extend_from_slice(&1u32.to_le_bytes());
    file.extend_from_slice(&[0u8; 40]);
    assert!(!blf_sizes_valid(&file));
}

#[test]
fn asc_write_then_read_relative_to_start() {
    let mut w = AscWriter::new();
    w.set_start_time(5_000_000_000);
    let frames = vec![
        CanFrame::new_can(5_000_000_000, 254, 0x7FF, false, 8, &[0xAB, 0x0C], Direction::Tx),
        CanFrame::new_can(6_234_567_000, 0, 0x123, true, 0, &[], Direction::Rx),
    ];
    let mut text = AscWriter::header("Tue Feb 02 01:02:03 PM 2021");
    for f in &frames {
        text.push_str(&w.write_frame(f));
    }
    let back = read_asc(&text);
    assert_eq!(back.len(), 2);
    assert_eq!(back[0].timestamp_ns, 0);
    assert_eq!(back[0].channel, 254);
    assert_eq!(back[0].id, 0x7FF);
    assert!(!back[0].is_extended);
    assert_eq!(back[0].dlc, 8);
    assert_eq!(back[0].data, vec![0xAB, 0x0C]);
    assert_eq!(back[0].direction, Direction::Tx);
    assert_eq!(back[1].timestamp_ns, 1_234_567_000);
    assert_eq!(back[1].channel, 0);
    assert_eq!(back[1].id, 0x123);
    assert!(back[1].is_extended);
    assert_eq!(back[1].dlc, 0);
    assert!(back[1].data.is_empty());
    assert_eq!(back[1].direction, Direction::Rx);
}

#[test]
fn asc_frames_before_start_and_rounded_times_read_back() {
    let mut w = AscWriter::new();
    w.set_start_time(2_000_000_000);
    let early = CanFrame::new_can(1_500_000_000, 0, 0x12, false, 1, &[7], Direction::Rx);
    let line = w.write_frame(&early);
    assert_eq!(line, "  -0.500000 1  012             Rx d 1 07\n");
    let odd = CanFrame::new_can(3_234_567_890, 1, 0x34, false, 0, &[], Direction::Tx);
    let tiny = CanFrame::new_can(1_999_999_600, 2, 0x56, false, 0, &[], Direction::Tx);
    let mut text = AscWriter::header("today");
    text.push_str(&line);
    text.push_str(&w.write_frame(&odd));
    text.push_str(&w.write_frame(&tiny));
    let back = read_asc(&text);
    assert_eq!(back.len(), 3);
    assert_eq!(back[0].timestamp_ns, -500_000_000);
    assert_eq!(back[0].data, vec![7]);
    assert_eq!(back[1].timestamp_ns, 1_234_568_000);
    assert_eq!(back[1].channel, 1);
    assert_eq!(back[2].timestamp_ns, 0);
    assert_eq!(back[2].channel, 2);
}

#[test]
fn asc_channel_255_is_written_as_256() {
    let w = AscWriter::new();
    let f = CanFrame::new_can(0, 255, 0x1, false, 0, &[], Direction::Rx);
    assert_eq!(w.write_frame(&f), "  0.000000 256  001             Rx d 0 \n");
}

#[test]
fn asc_fd_line_data_is_len_bytes() {
    let text = "  0.5 CANFD 1a0 Rx d 9 12 1 0 01 02 03 04 05 06 07 08 09 0a 0b 0c 0 0 0 0 0\n\
  0.6 CANFD 1a1 Rx d 9 20 0 0 01 02\n";
    let frames = read_asc(text);
    assert_eq!(frames.len(), 2);
    assert_eq!(frames[0].timestamp_ns, 500_000_000);
    assert_eq!(frames[0].id, 0x1A0);
    assert!(frames[0].is_fd && frames[0].is_brs && !frames[0].is_extended);
    assert_eq!(frames[0].dlc, 9);
    assert_eq!(frames[0].data, vec![1, 2, 3, 4, 5, 6, 7, 8, 9, 10, 11, 12]);
    assert_eq!(frames[1].data, vec![1, 2]);
    assert!(!frames[1].is_brs);
}

#[test]
fn asc_write_then_read_fd() {
    let mut w = AscWriter::new();
    w.set_start_time(100);
    let frames = vec![
        CanFrame::new_canfd(1_000_100, 0, 0x1A0, false, true, 9, &[0x5A; 12], Direction::Rx),
        CanFrame::new_canfd(2_000_100, 0, 0x12345, true, false, 15, &[7; 64], Direction::Tx),
        CanFrame::new_canfd(3_000_100, 0, 0x10, false, false, 0, &[], Direction::Tx),
    ];
    let mut text = AscWriter::header("today");
    for f in &frames {
        text.push_str(&w.write_frame(f));
    }
    let back = read_asc(&text);
    assert_eq!(back.len(), 3);
    for (i, (a, b)) in frames.iter().zip(back.iter()).enumerate() {
        assert_eq!(b.timestamp_ns, (i as i64 + 1) * 1_000_000);
        assert_eq!(a.channel, b.channel);
        assert_eq!(a.id, b.id);
        assert_eq!(a.is_extended, b.is_extended);
        assert!(b.is_fd);
        assert_eq!(a.is_brs, b.is_brs);
        assert_eq!(a.dlc, b.dlc);
        assert_eq!(a.data, b.data);
        assert_eq!(a.direction, b.direction);
    }
}
