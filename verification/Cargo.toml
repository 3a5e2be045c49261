[package]
name = "gst_meet"
version = "0.1.0"
edition = "2021"
publish = false

[dependencies]
webrtc-sdp = "=0.3.17"
serde = { version = "=1.0.229", features = ["derive"] }
serde_json = "=1.0.154"
chrono = "=0.4.45"
nanoid = "=0.4.0"
regex = "=1.13.1"
unicode-segmentation = "=1.13.3"
thiserror = "=2.0.21"
log = "=0.4.35"
vodozemac = "=0.11.1"
config = { version = "=0.15.27", default-features = false, features = ["toml"] }
env_logger = "=0.11.11"
tiny_http = "=0.12.0"
