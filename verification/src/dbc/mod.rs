//! DBC databases: signals, messages and the DBC file parser.
pub mod database;
pub mod message;
pub mod parser;
pub mod signal;
pub mod parser_laws;
