[package]
name = "engram_core"
version = "0.1.0"
edition = "2021"
publish = false

[dependencies]
async-trait = "*"
axum = { version = "*", features = ["ws", "multipart"] }
base64 = "*"
chrono = "*"
futures-util = "*"
pdf-extract = "*"
reqwest = { version = "*", default-features = false, features = ["json", "rustls-tls"] }
serde = { version = "*", features = ["derive"] }
serde_json = "*"
sqlx = { version = "*", default-features = false, features = ["sqlite", "runtime-tokio", "chrono", "macros"] }
thiserror = "*"
tokio = { version = "*", features = ["full"] }
tower-http = { version = "*", features = ["cors"] }
uuid = { version = "*", features = ["v4"] }
