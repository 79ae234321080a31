[package]
name = "r34_hooks"
version = "0.1.0"
edition = "2021"
publish = false

[dependencies]
anyhow = "1"
argh = "*"
async-trait = "*"
figment = { version = "*", features = ["env", "toml", "yaml"] }
futures-util = "*"
quick-xml = { version = "*", features = ["serialize"] }
reqwest = { version = "*", default-features = false, features = ["json", "stream", "rustls-tls"] }
serde = { version = "1", features = ["derive"] }
serde_json = "1"
sqlx = { version = "*", default-features = false, features = ["runtime-tokio", "postgres"] }
tokio = { version = "1", features = ["full"] }
tokio-cron-scheduler = "*"
tracing = "*"
tracing-subscriber = "*"
