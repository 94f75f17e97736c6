[package]
name = "gitclub"
version = "0.1.0"
edition = "2021"
publish = false

[dependencies]
axum = "=0.7.9"
axum-extra = { version = "=0.9.6", features = ["cookie"] }
base64 = "=0.22.1"
bcrypt = "=0.15.1"
chrono = "=0.4.45"
flate2 = "=1.1.10"
http-body-util = "=0.1.5"
rust-ini = "=0.21.3"
jsonwebtoken = "=9.3.1"
mime_guess = "=2.0.5"
rust-embed = { version = "=8.13.0", features = ["interpolate-folder-path"] }
serde = { version = "=1.0.229", features = ["derive"] }
serde_json = "=1.0.154"
sqlx = { version = "=0.8.6", default-features = false, features = ["runtime-tokio", "sqlite", "macros"] }
time = "=0.3.55"
tokio = { version = "=1.54.1", features = ["full"] }
tokio-util = { version = "=0.7.20", features = ["io"] }
tower-http = { version = "=0.5.2", features = ["trace"] }
tracing = "=0.1.44"
tracing-subscriber = { version = "=0.3.23", features = ["env-filter"] }
urlencoding = "=2.1.3"
