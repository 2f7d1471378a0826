//! Vector XL driver data model.
pub mod types;
pub mod driver;
pub mod channel;
pub mod channel_laws;
