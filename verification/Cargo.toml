[package]
name = "webrtc_server"
version = "0.1.0"
edition = "2021"
publish = false

[dependencies]
base64 = "=0.22.1"
hmac = "=0.12.1"
sha1 = "=0.10.7"
serde_json = "=1.0.151"
serde = { version = "=1.0.229", features = ["derive"] }
tokio = { version = "=1.53.2", features = ["rt-multi-thread", "net", "time", "sync", "macros", "io-util"] }
tokio-tungstenite = "=0.30.0"
futures-util = "=0.3.34"
uuid = { version = "=1.27.0", features = ["v4"] }
log = "=0.4.34"
env_logger = "=0.11.11"
dotenv = "=0.15.0"
chrono = "=0.4.45"
webrtc = "=0.21.0"
