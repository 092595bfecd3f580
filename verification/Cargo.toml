[package]
name = "collabori"
version = "0.1.0"
edition = "2021"
publish = false

[dependencies]
futures-util = "0.3"
thiserror = "1"
tokio = { version = "1", features = ["macros", "net", "rt-multi-thread", "sync", "time"] }
tokio-tungstenite = "0.24"
url = "2"
uuid = { version = "1", features = ["v4"] }

[dev-dependencies]
serde_json = "1"
