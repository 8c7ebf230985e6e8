[package]
name = "duckxy"
version = "0.1.0"
edition = "2021"
publish = false

[dependencies]
hmac = "*"
sha2 = "*"
base64 = "*"
hex = "*"
subtle = "*"
sea-query = "*"
zip = "*"
anyhow = "*"
axum = "*"
serde = { version = "*", features = ["derive"] }
tokio = { version = "*", features = ["full"] }
tokio-stream = "*"
tower-http = { version = "*", features = ["trace"] }
tracing = "*"
tracing-subscriber = { version = "*", features = ["env-filter"] }
duckdb = { version = "*", features = ["vtab"] }

[dev-dependencies]
serde_json = "*"
