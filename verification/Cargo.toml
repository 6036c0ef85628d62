[package]
name = "responses_chat"
version = "0.1.0"
edition = "2021"
publish = false

[dependencies]
async-stream = "0.3"
bytes = "1"
futures = "0.3"
serde = { version = "1", features = ["derive"] }
serde_json = "1"
tokio = "1"
uuid = { version = "1", features = ["v4"] }
