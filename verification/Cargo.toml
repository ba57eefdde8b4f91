[package]
name = "utils"
version = "0.1.0"
edition = "2021"
publish = false

[dependencies]
jsonwebtoken = "8"
axum = { version = "0.6", features = ["headers", "ws"] }
tokio = { version = "1", features = ["full"] }
serde = { version = "1", features = ["derive"] }
serde_json = "1"
sqlx = { version = "0.6", features = ["runtime-tokio-rustls", "postgres", "json"] }
redis = { version = "0.22", features = ["r2d2"] }
r2d2 = "0.8"
mongodb = "2"
lettre = { version = "0.10", default-features = false, features = ["builder", "smtp-transport", "tokio1", "tokio1-rustls-tls"] }
dotenv = "0.15"
once_cell = "1"
tower-http = { version = "0.4", features = ["trace"] }
tracing = "0.1"
tracing-subscriber = { version = "0.3", features = ["env-filter"] }
opentelemetry = "0.18"
headers = "0.3"
http = "0.2"
futures = "0.3"
bytes = "1"
