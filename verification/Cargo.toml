[package]
name = "audio_capture"
version = "0.1.0"
edition = "2021"
publish = false

[dependencies]
ringbuf = "0.4"
cpal = "*"
napi = { version = "*", features = ["napi4"] }
napi-derive = "*"
