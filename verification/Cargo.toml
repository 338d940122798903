[package]
name = "room_service"
version = "0.1.0"
edition = "2021"
publish = false

[dependencies]
anyhow = "*"
bytes = "*"
rapier3d = "*"
rmp-serde = "*"
serde = { version = "*", features = ["derive"] }
serde_json = "*"
tokio = { version = "*", features = ["macros", "rt-multi-thread", "net", "time", "sync", "io-util"] }
tokio-util = { version = "*", features = ["codec"] }
tracing = "*"
tracing-subscriber = { version = "*", features = ["env-filter"] }
