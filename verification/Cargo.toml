[package]
name = "pag"
version = "0.1.0"
edition = "2021"
publish = false

[dependencies]
anyhow = "*"
argon2 = "*"
axum = { version = "0.8", features = ["ws"] }
blake3 = "*"
chrono = { version = "*", features = ["serde"] }
clap = { version = "4", features = ["derive"] }
colored = "*"
flate2 = "*"
futures = "*"
hex = "*"
indicatif = "*"
libc = "*"
rand = "*"
reqwest = { version = "0.12", default-features = false, features = ["json", "gzip", "brotli", "rustls-tls"] }
rusqlite = { version = "0.32", features = ["bundled"] }
serde = { version = "1", features = ["derive"] }
serde_json = "1"
sha2 = "*"
sqlx = { version = "0.8", default-features = false, features = ["runtime-tokio", "sqlite", "chrono", "derive", "macros"] }
tar = "*"
tokio = { version = "1", features = ["full"] }
toml = "*"
tower-http = { version = "*", features = ["cors", "trace"] }
tracing = "*"
tracing-subscriber = { version = "*", features = ["env-filter"] }
uuid = { version = "1", features = ["v4"] }
walkdir = "*"
xz2 = "*"
zstd = "*"
