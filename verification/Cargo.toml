[package]
name = "ivlyrics_bridge"
version = "0.7.19"
edition = "2021"
publish = false

[dependencies]
axum = "0.8"
base64 = "0.22"
dirs = "6"
hmac = "0.12"
reqwest = { version = "0.12", default-features = false, features = ["json", "rustls-tls"] }
serde = { version = "1", features = ["derive"] }
serde_json = "1"
sha1 = "0.10"
time = { version = "0.3", features = ["macros", "formatting"] }
tokio = { version = "1", features = ["full"] }
tower-http = { version = "0.6", features = ["cors"] }
