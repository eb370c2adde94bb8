[package]
name = "async-event-emitter"
version = "0.1.0"
edition = "2021"
publish = false

[dependencies]
dashmap = "5"
uuid = { version = "1", features = ["v4"] }
bincode = "1"
serde = { version = "1", features = ["derive"] }
futures = "0.3"
anyhow = "1"
