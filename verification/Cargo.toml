[package]
name = "rtsp_core"
version = "0.1.0"
edition = "2021"
publish = false

[dependencies]
anyhow = "*"
derive_more = { version = "*", features = ["display", "error"] }
gstreamer = "*"
