[package]
name = "sei_bot"
version = "0.1.0"
edition = "2021"
publish = false

[dependencies]
uuid = "0.8"
serenity = "0.10"
tokio = { version = "1", features = ["macros", "rt-multi-thread", "sync"] }
reqwest = { version = "0.11", features = ["json"] }
rocket = { version = "0.5", features = ["json"] }
serde = { version = "1", features = ["derive"] }
serde_json = "1"
lazy_static = "1"
async_once = "0.2"
