[package]
name = "mobius_rtsp"
version = "0.1.0"
edition = "2021"
publish = false

[dependencies]
config = { version = "=0.15.27", default-features = false }
dotenv = "=0.15.0"
glib = "0.20"
gstreamer = "0.23"
gstreamer-rtsp-server = "0.23"
serde = { version = "=1.0.229", features = ["derive"] }
