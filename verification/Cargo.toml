[package]
name = "kb-mod-monitor"
version = "0.1.0"
edition = "2021"
publish = false

[dependencies]
anyhow = "1"
env_logger = "0.11"
evdev = "0.13"
log = "0.4"
rustix = { version = "1", features = ["event", "fs", "net", "std"] }
xkbcommon = "0.8"
