[package]
name = "chat_wire"
version = "0.1.0"
edition = "2021"
publish = false

[dependencies]
serde_json = "1"
reqwest = { version = "0.12", default-features = false, features = ["stream"] }
futures = "0.3"
tokio = { version = "1", features = ["sync"] }
