[package]
name = "keybridge"
version = "0.1.0"
edition = "2021"
publish = false

[dependencies]
anyhow = "1"
env_logger = "0.11"
global-hotkey = "*"
log = "0.4"
serialport = { version = "4", default-features = false }
winapi = { version = "0.3", features = ["winuser", "windef"] }
