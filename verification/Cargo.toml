[package]
name = "thermostat_pi"
version = "0.1.0"
edition = "2021"
publish = false

[dependencies]
time = { version = "=0.3.55", features = ["formatting", "macros"] }
secrecy = "=0.8.0"
serde = { version = "=1.0.229", features = ["derive"] }
serde_json = "=1.0.154"
actix-web = "=4.18.1"
tokio = { version = "=1.54.1", features = ["macros", "rt-multi-thread", "time", "fs", "io-util", "signal"] }
reqwest = { version = "=0.11.27", default-features = false, features = ["json"] }
config = { version = "=0.13.4", default-features = false, features = ["yaml"] }
rppal = "=0.14.1"
glob = "=0.3.4"
tracing = "=0.1.44"
tracing-actix-web = "=0.7.25"
tracing-subscriber = "=0.3.23"
uuid = { version = "=1.29.0", features = ["v4"] }
log = "=0.4.35"
dotenv = "=0.15.0"
anyhow = "=1.0.104"
lambda_http = "=0.7.3"
aws-config = "=0.51.0"
aws-sdk-dynamodb = "=0.21.0"
chrono = "=0.4.45"
sqlx = { version = "0.6", default-features = false, features = ["runtime-tokio-rustls", "postgres", "chrono", "bigdecimal"] }
