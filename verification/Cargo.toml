[package]
name = "search_agent"
version = "0.1.0"
edition = "2021"
publish = false

[dependencies]
regex = "1"
sha2 = "0.10"
serde = { version = "1", features = ["derive"] }
serde_json = "1"
tokio = { version = "1", features = ["full"] }
anyhow = "1"
walkdir = "2"
uuid = { version = "1", features = ["v4"] }
chrono = "0.4"
parking_lot = "0.12"
quick-xml = "0.36"
zip = { version = "2", default-features = false, features = ["deflate"] }
pdf-extract = "0.7"
reqwest = { version = "0.12", default-features = false, features = ["json", "rustls-tls"] }
sqlx = { version = "0.8", default-features = false, features = ["sqlite", "runtime-tokio", "migrate", "macros"] }
tantivy = "0.22"
tracing = "0.1"
