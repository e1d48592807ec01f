[package]
name = "rtp_engine"
version = "0.1.0"
edition = "2021"
publish = false

[dependencies]
aes = "0.8"
audioadapter-buffers = "*"
audiopus = "*"
base64 = "0.22"
chrono = "0.4"
cpal = "*"
ctr = "0.9"
hmac = "0.12"
log = "0.4"
rand = "0.9"
rubato = "*"
sha1 = "0.10"
thiserror = "2"
tokio = { version = "1", features = ["macros", "net", "rt-multi-thread", "time"] }
webrtc-audio-processing = "*"
