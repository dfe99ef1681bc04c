[package]
name = "migchat"
version = "0.1.0"
edition = "2021"
publish = false

[dependencies]
rand = "*"
bcrypt = "*"
chrono = "*"
serde = { version = "*", features = ["derive"] }
serde_json = "*"
axum = "*"
tokio = { version = "*", features = ["rt-multi-thread", "macros", "net", "sync"] }
tower-http = { version = "*", features = ["cors"] }
