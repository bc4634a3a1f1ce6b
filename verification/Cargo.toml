[package]
name = "chunked_backup"
version = "0.1.0"
edition = "2021"
publish = false

[dependencies]
anyhow = "1"
chrono = "0.4"
clap = { version = "4", features = ["derive"] }
google-cloud-auth = "0.17"
google-cloud-storage = { version = "0.24", default-features = false, features = ["rustls-tls", "auth"] }
serde = { version = "1", features = ["derive"] }
serde_json = "1"
tokio = { version = "1", features = ["rt-multi-thread", "macros"] }
walkdir = "2"
zip = { version = "0.6", default-features = false, features = ["deflate"] }
