[package]
name = "mariadb_kb_crawler"
version = "0.1.0"
edition = "2021"
publish = false

[dependencies]
axum = { version = "0.6", features = ["macros"] }
chrono = "0.4"
clap = "4"
csv = "1"
lazy-regex = "3"
log = "0.4"
reqwest = { version = "0.11", default-features = false, features = ["blocking", "rustls-tls"] }
serde = { version = "1", features = ["derive"] }
simplelog = "0.12"
tokio = { version = "1", features = ["full"] }
