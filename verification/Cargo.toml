[package]
name = "xkb-type"
version = "0.1.0"
edition = "2021"

[dependencies]
anyhow = "1"
evdev = "0.12"
log = "0.4"
serde_json = "1"
xkbcommon = "0.8"
