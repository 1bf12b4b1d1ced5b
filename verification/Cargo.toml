[package]
name = "blank"
version = "0.1.0"
edition = "2021"
publish = false

[dependencies]
actix-web = "=4.18.1"
anyhow = "=1.0.104"
argon2 = "=0.5.3"
base64 = "=0.22.1"
chrono = "=0.4.45"
dotenvy = "=0.15.7"
futures-util = "=0.3.34"
hex = "=0.4.3"
hickory-resolver = "=0.26.3"
hmac = "=0.12.1"
jsonwebtoken = "=9.3.1"
rand = "=0.8.8"
reqwest = { version = "=0.12.28", features = ["json"] }
serde = { version = "=1.0.229", features = ["derive"] }
serde_json = "=1.0.154"
sha2 = "=0.10.9"
sqlx = { version = "=0.8.6", features = ["sqlite", "runtime-tokio", "migrate"] }
tokio = { version = "=1.54.1", features = ["full"] }
toml = "=0.8.23"
tracing = "=0.1.44"
tracing-subscriber = { version = "=0.3.23", features = ["env-filter"] }
uuid = { version = "=1.29.0", features = ["v4"] }
