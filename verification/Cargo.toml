[package]
name = "whep_srt"
version = "0.1.0"
edition = "2021"
publish = false

[dependencies]
clap = { version = "=4.6.7", features = ["derive"] }
ctrlc = "=3.5.2"
env_logger = "=0.11.11"
log = "=0.4.34"
gstreamer = "=0.25.4"
gst-plugin-webrtc = { version = "=0.15.4", default-features = false, features = ["whep", "rustls-ring"] }
