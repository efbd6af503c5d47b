[package]
name = "agent_thread"
version = "0.1.0"
edition = "2021"
publish = false

[dependencies]
futures-util = "0.3"
nostr = "0.44"
serde = { version = "1", features = ["derive"] }
serde_json = "1"
thiserror = "2"
tokio = { version = "1", features = ["net", "rt", "rt-multi-thread", "sync", "time", "macros"] }
tokio-tungstenite = "*"
tracing = "0.1"
url = "2"
uuid = { version = "1", features = ["v4"] }
