[package]
name = "credit_exchanger"
version = "0.1.0"
edition = "2021"
publish = false

[dependencies]
actix-web = "=4.18.1"
anyhow = "=1.0.104"
derive_more = { version = "=1.0.0", features = ["display", "error", "constructor"] }
env_logger = "=0.11.11"
futures-util = "=0.3.34"
log = "=0.4.35"
mongodb = "=2.8.2"
reqwest = { version = "=0.12.28", default-features = false }
serde = { version = "=1.0.229", features = ["derive"] }
strum = { version = "=0.26.3", features = ["derive"] }
tokio = { version = "=1.54.1", features = ["rt-multi-thread", "macros", "time", "fs"] }
toml = "=0.8.23"
utoipa = { version = "=5.5.0", features = ["actix_extras"] }
utoipa-actix-web = "=0.1.2"
utoipa-swagger-ui = { version = "9.0.2", features = ["actix-web", "vendored"] }
