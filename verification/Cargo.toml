[package]
name = "portalkeeper"
version = "1.0.0"
edition = "2021"
publish = false

[dependencies]
encoding_rs = "0.8"
libc = "0.2"
serde_json = "1"
socket2 = { version = "0.5", features = ["all"] }
