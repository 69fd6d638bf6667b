[package]
name = "orderbook_back"
version = "0.1.0"
edition = "2021"
publish = false

[dependencies]
http = "=1.5.0"
axum = "=0.8.9"
tokio = { version = "=1.54.1", features = ["full"] }
redis = { version = "=0.27.6", features = ["tokio-comp"] }
serde = { version = "=1.0.229", features = ["derive"] }
serde_json = "=1.0.154"
reqwest = { version = "=0.12.28", default-features = false, features = ["rustls-tls"] }
tower-http = { version = "=0.6.11", features = ["cors"] }
tracing = "=0.1.44"
tracing-subscriber = { version = "=0.3.23", features = ["env-filter"] }
dotenv = "=0.15.0"
futures = "=0.3.34"
utoipa = "=5.5.0"
utoipa-swagger-ui = { version = "9", features = ["axum", "vendored"] }
