[package]
name = "qlite"
version = "0.1.0"
edition = "2021"
publish = false

[dependencies]
md5 = "*"
uuid = { version = "*", features = ["v4"] }
serde_json = "*"
serde = { version = "*", features = ["derive"] }
chrono = "*"
clap = { version = "*", features = ["derive"] }
axum = "*"
tokio = { version = "*", features = ["full"] }
tower = "*"
tower-http = { version = "*", features = ["cors", "trace"] }
quick-xml = { version = "*", features = ["serialize"] }
urlencoding = "*"
toml = "*"
tracing = "*"
tracing-subscriber = "*"
tokio-cron-scheduler = "*"
rusqlite = { version = "*", features = ["bundled"] }
