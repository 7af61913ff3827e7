[package]
name = "content_store"
version = "0.1.0"
edition = "2021"
publish = false

[dependencies]
sha2 = "=0.11.0"
uuid = { version = "=1.27.0", features = ["v4"] }
tokio = { version = "*", features = ["full"] }
tokio-util = { version = "*", features = ["io"] }
futures = "*"
axum = { version = "*", features = ["multipart"] }
serde = { version = "*", features = ["derive"] }
sqlx = { version = "*", default-features = false, features = ["runtime-tokio", "sqlite", "derive"] }
thiserror = "*"
tracing = "*"
tracing-subscriber = { version = "*", features = ["env-filter"] }
dotenvy = "*"
urlencoding = "*"
reqwest = { version = "*", default-features = false }
