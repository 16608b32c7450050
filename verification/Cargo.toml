[package]
name = "ai_gw_lite"
version = "0.1.0"
edition = "2021"
publish = false

[dependencies]
axum = "*"
axum-server = { version = "*", features = ["tls-rustls"] }
futures-util = "*"
http = "*"
rcgen = "*"
reqwest = { version = "*", default-features = false, features = ["stream"] }
rustls = "*"
serde = { version = "*", features = ["derive"] }
serde_json = "*"
serde_yaml = "*"
tokio = { version = "*", features = ["full"] }
tracing = "*"
tracing-subscriber = { version = "*", features = ["env-filter", "json"] }
uuid = { version = "*", features = ["v7"] }
