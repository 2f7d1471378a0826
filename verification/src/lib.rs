//! CAN / CAN-FD analysis library: frame model, DBC signal databases,
//! ASC and BLF log formats, and the decision logic of the transmitter.
#![allow(non_snake_case, non_camel_case_types, non_upper_case_globals)]

pub mod vector;
pub mod text;
pub mod can;
pub mod dbc;
pub mod log;
pub mod i18n;
pub mod ui;
