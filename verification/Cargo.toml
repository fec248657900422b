[package]
name = "pubsub_supervisor"
version = "0.1.0"
edition = "2021"
publish = false

[dependencies]
async-nats = "*"
async-trait = "0.1"
futures = "0.3"
serde = { version = "1", features = ["derive"] }
serde_json = "1"
thiserror = "1"
tokio = { version = "1", features = ["macros", "rt-multi-thread", "time", "sync"] }
