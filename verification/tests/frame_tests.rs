use cankoro::can::frame::{CanFrame, Direction};
use cankoro::can::transmitter::{
    forwarded_frame, next_phase, sends_in, should_forward, trapezoid_frame, TrapezoidPhase,
};

#[test]
fn constructors_and_lengths() {
    let f = CanFrame::new_can(5, 1, 0x1AB, false, 12, &[1, 2], Direction::Rx);
    assert!(!f.is_fd);
    assert_eq!(f.data_length(), 8);
    assert_eq!(f.id_hex(), "1AB");
    assert_eq!(f.data_hex(), "01 02");
    let g = CanFrame::new_canfd(5, 1, 0x1ABCDE, true, true, 13, &[0xFF], Direction::Tx);
    assert!(g.is_fd && g.is_brs && !g.is_esi);
    assert_eq!(g.data_length(), 32);
    assert_eq!(g.id_hex(), "001ABCDE");
    assert_eq!(g.data_hex(), "FF");
    let e = CanFrame::new_can(0, 0, 0x5, false, 0, &[], Direction::Rx);
    assert_eq!(e.id_hex(), "005");
    assert_eq!(e.data_hex(), "");
    assert_eq!(e.data_length(), 0);
}

#[test]
fn forwarding_filter() {
    let rx = CanFrame::new_can(0, 2, 0x100, false, 1, &[1], Direction::Rx);
    assert!(should_forward(&rx, 2, &[]));
    assert!(should_forward(&rx, 2, &[0x200, 0x100]));
    assert!(!should_forward(&rx, 2, &[0x200]));
    assert!(!should_forward(&rx, 1, &[]));
    let tx = CanFrame::new_can(0, 2, 0x100, false, 1, &[1], Direction::Tx);
    assert!(!should_forward(&tx, 2, &[]));
    let f = forwarded_frame(&rx);
    assert_eq!(f.direction, Direction::Tx);
    assert_eq!(f.id, 0x100);
    assert_eq!(f.data, vec![1]);
    assert_eq!(f.channel, 2);
}

#[test]
fn trapezoid_phases() {
    assert_eq!(next_phase(TrapezoidPhase::Rising, false, true, true, true), (TrapezoidPhase::Rising, false));
    assert_eq!(next_phase(TrapezoidPhase::Rising, true, false, false, false), (TrapezoidPhase::Hold, true));
    assert_eq!(next_phase(TrapezoidPhase::Hold, true, false, true, true), (TrapezoidPhase::Hold, false));
    assert_eq!(next_phase(TrapezoidPhase::Hold, false, true, false, false), (TrapezoidPhase::Falling, true));
    assert_eq!(next_phase(TrapezoidPhase::Falling, false, false, false, true), (TrapezoidPhase::Falling, false));
    assert_eq!(next_phase(TrapezoidPhase::Falling, false, false, true, true), (TrapezoidPhase::Rising, true));
    assert_eq!(next_phase(TrapezoidPhase::Falling, false, false, true, false), (TrapezoidPhase::Done, false));
    assert_eq!(next_phase(TrapezoidPhase::Done, true, true, true, true), (TrapezoidPhase::Done, false));
    assert!(sends_in(TrapezoidPhase::Rising) && sends_in(TrapezoidPhase::Hold) && sends_in(TrapezoidPhase::Falling));
    assert!(!sends_in(TrapezoidPhase::Done));
}

#[test]
fn trapezoid_frames() {
    let f = trapezoid_frame(0x800, true, 9, &[1, 2, 3]);
    assert!(f.is_fd && f.is_brs && f.is_extended);
    assert_eq!(f.direction, Direction::Tx);
    assert_eq!(f.channel, 0);
    assert_eq!(f.timestamp_ns, 0);
    let g = trapezoid_frame(0x7FF, false, 3, &[1, 2, 3]);
    assert!(!g.is_fd && !g.is_extended);
    assert_eq!(g.dlc, 3);
}
