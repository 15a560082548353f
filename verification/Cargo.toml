[package]
name = "event_driven_sdk"
version = "0.2.0"
edition = "2021"
publish = false

[dependencies]
futures-util = { version = "=0.3.34", default-features = false, features = ["sink", "std"] }
serde_json = "=1.0.154"
tokio = { version = "=1.54.1", features = ["net", "rt", "time", "macros"] }
tokio-tungstenite = { version = "=0.30.0", default-features = false, features = ["connect", "handshake", "stream"] }
