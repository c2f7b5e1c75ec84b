[package]
name = "repositorymonitor"
version = "0.1.0"
edition = "2021"
publish = false

[dependencies]
globset = "0.4"
serde = { version = "1", features = ["derive"] }
serde_json = "1"
dirs-next = "2"
tokio = { version = "1", features = ["rt-multi-thread", "macros", "sync", "time"] }
