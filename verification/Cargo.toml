[package]
name = "fileshare"
version = "0.1.0"
edition = "2021"
publish = false

[dependencies]
urlencoding = "2"
humansize = "2"
chrono = "0.4"
uuid = { version = "1", features = ["v4"] }
mime_guess = "2"
dashmap = "6"
axum = "0.8"
tokio = { version = "1", features = ["full"] }
tokio-util = { version = "0.7", features = ["io"] }
tower-http = { version = "0.6", features = ["cors", "fs", "trace"] }
maud = { version = "0.27", features = ["axum"] }
clap = { version = "4", features = ["derive"] }
serde = { version = "1", features = ["derive"] }
http = "1"
tracing = "0.1"
tracing-subscriber = "0.3"
