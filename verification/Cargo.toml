[package]
name = "ghostprompt"
version = "0.1.0"
edition = "2021"
publish = false

[dependencies]
webrtc-vad = "=0.4.0"
anyhow = "1"
serde = { version = "1", features = ["derive"] }
serde_json = "1"
tokio = { version = "1", features = ["full"] }
futures = "0.3"
async-stream = "0.3"
reqwest = { version = "=0.11.27", default-features = false, features = ["json", "stream", "rustls-tls"] }
cpal = "=0.15.3"
ringbuf = "=0.3.3"
dirs = "=5.0.1"
