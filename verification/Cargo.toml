[package]
name = "chat_compat"
version = "0.1.0"
edition = "2021"
publish = false

[dependencies]
serde = { version = "*", features = ["derive"] }
serde_json = "*"
serde_yaml = "*"
chrono = "*"
toml = "*"
tokio = { version = "*", features = ["full"] }
futures = "*"
eventsource-stream = "*"
bytes = "*"
