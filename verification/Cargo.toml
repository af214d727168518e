[package]
name = "elex-proxy"
version = "0.1.0"
edition = "2021"
publish = false

[dependencies]
regex = "1"
hex = "0.4"
bitcoin = "0.32"
mime_guess = "2"
rand = "0.8"
forwarded-header-value = "0.1"
axum = "0.7"
tokio = { version = "1", features = ["full"] }
serde = { version = "1", features = ["derive"] }
serde_json = "1"
ciborium = "0.2"
tower = { version = "0.4", features = ["limit"] }
tower_governor = "0.3"
tower-http = { version = "0.5", features = ["cors", "trace", "catch-panic"] }
tracing = "0.1"
tracing-subscriber = "0.3"
dotenv = "0.15"
futures = "0.3"
tokio-stream = "0.1"
tokio-tungstenite = { version = "0.21", features = ["rustls-tls-webpki-roots"] }
http-body-util = "0.1"
bytes = "1"
once_cell = "1"
anyhow = "1"
headers = "0.4"
moka = { version = "0.12", features = ["future"] }
