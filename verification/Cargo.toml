[package]
name = "cankoro"
version = "0.1.0"
edition = "2021"
publish = false

[dependencies]
flate2 = "=1.1.10"
byteorder = "=1.5.0"
chrono = { version = "=0.4.45", default-features = false, features = ["clock", "std"] }
crossbeam-channel = "=0.5.17"
parking_lot = "=0.12.5"
serde = { version = "=1.0.229", features = ["derive"] }
serde_json = "=1.0.154"
egui = "*"
egui_plot = "*"
eframe = { version = "*", default-features = false, features = ["glow", "x11", "default_fonts"] }
rfd = { version = "*", default-features = false }
log = "=0.4.35"
winapi = { version = "=0.3.9", features = ["synchapi", "winbase"] }
windows = { version = "=0.62.2", features = ["Win32_Foundation", "Win32_System_LibraryLoader"] }
