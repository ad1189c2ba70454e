[package]
name = "shiori3"
version = "0.1.0"
edition = "2021"
publish = false

[dependencies]
futures = { version = "0.3", features = ["thread-pool"] }
log = "0.4"
once_cell = "1"
thiserror = "1"
windows-sys = { version = "0.52", features = ["Win32_Foundation", "Win32_Globalization", "Win32_System_Memory"] }
