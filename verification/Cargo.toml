[package]
name = "polybot"
version = "0.1.0"
edition = "2021"
publish = false

[dependencies]
async-trait = "0.1"
aws-config = { version = "1", default-features = false, features = ["rt-tokio"] }
aws-sdk-bedrockruntime = { version = "1", default-features = false, features = ["rt-tokio"] }
aws-sdk-dynamodb = { version = "1", default-features = false, features = ["rt-tokio"] }
aws-sdk-s3 = { version = "1", default-features = false, features = ["rt-tokio"] }
aws-sdk-secretsmanager = { version = "1", default-features = false, features = ["rt-tokio"] }
aws-sdk-sqs = { version = "1", default-features = false, features = ["rt-tokio"] }
axum = { version = "0.8", default-features = false, features = ["http1", "json", "tokio"] }
chrono = { version = "0.4", default-features = false, features = ["std", "now", "serde"] }
clap = { version = "4", default-features = false, features = ["std", "help", "derive", "env"] }
crossterm = { version = "*", features = ["event-stream"] }
futures = { version = "0.3", default-features = false, features = ["std", "async-await"] }
ratatui = { version = "0.29", default-features = false, features = ["crossterm"] }
reqwest = { version = "0.12", default-features = false, features = ["json", "gzip", "rustls-tls"] }
rust_decimal = { version = "1", default-features = false, features = ["std", "serde"] }
sd-notify = "*"
serde = { version = "1", features = ["derive"] }
serde_json = "1"
sqlx = { version = "0.8", default-features = false, features = ["runtime-tokio", "postgres", "chrono", "uuid", "rust_decimal", "json", "migrate"] }
thiserror = "2"
tokio = { version = "1", features = ["rt-multi-thread", "macros", "net", "time", "sync", "fs", "signal"] }
tower-http = { version = "0.6", features = ["cors"] }
tracing = "0.1"
tracing-subscriber = { version = "0.3", features = ["env-filter"] }
url = "2"
uuid = { version = "1", features = ["v4", "v5", "serde"] }
