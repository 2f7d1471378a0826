//! State and decisions of the user interface views, apart from drawing.
pub mod channel_config;
pub mod graph_view;
pub mod log_view;
pub mod main_view;
pub mod panel_editor;
pub mod tx_config;
