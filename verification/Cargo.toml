[package]
name = "rust_examples"
version = "0.1.0"
edition = "2021"
publish = false

[dependencies]
sha2 = "0.10"
rayon = "1"
serde = { version = "1", features = ["derive"] }
serde_json = "1"
clap = { version = "4", features = ["derive"] }
tokio = { version = "1", features = ["full"] }
axum = { version = "0.8", features = ["multipart"] }
sqlx = { version = "0.8", features = ["sqlite", "runtime-tokio"] }
dotenv = "0.15"
anyhow = "1"
thiserror = "2"
futures = "0.3"
dashmap = "6"
sysinfo = "0.33"
uuid = { version = "1", features = ["v4"] }
tracing = "0.1"
tracing-subscriber = "0.3"
tokio-util = { version = "0.7", features = ["io"] }
image = { version = "0.25", default-features = false, features = ["jpeg", "png"] }
