[package]
name = "sentinel"
version = "0.1.3"
edition = "2021"
publish = false

[dependencies]
anyhow = "1"
axum = "0.7"
reqwest = { version = "0.12", default-features = false, features = ["rustls-tls"] }
serde = { version = "1", features = ["derive"] }
time = "0.3"
tokio = { version = "1", features = ["full"] }
toml = "0.8"
zip = { version = "2", default-features = false, features = ["deflate"] }
