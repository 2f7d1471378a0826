//! Log file formats: Vector ASC (text) and BLF (binary).
pub mod asc;
pub mod reader;
pub mod blf;
pub mod blf_laws;
pub mod asc_laws;
