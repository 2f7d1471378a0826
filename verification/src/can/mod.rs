//! CAN frames and the decision logic of the transmitter.
pub mod frame;
pub mod transmitter;
