[package]
name = "knob"
version = "0.1.0"
edition = "2021"
publish = false

[dependencies]
serde = { version = "1", features = ["derive"] }
serde_json = "1"
ringbuf = "0.4"
rubato = "0.16"
arc-swap = "1"
parking_lot = "0.12"
log = "0.4"
env_logger = "0.11"
libc = "0.2"
core-foundation = "0.10"
coreaudio-sys = "0.2"
screencapturekit = "1"
