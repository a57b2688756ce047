[package]
name = "nearn_ft"
version = "0.1.0"
edition = "2021"
publish = false

[dependencies]
uuid = { version = "*", features = ["v4"] }
chrono = "*"
actix-web = "*"
tokio = { version = "*", features = ["macros", "rt-multi-thread", "sync", "time"] }
redis = { version = "*", features = ["tokio-comp"] }
deadpool-redis = { version = "*", features = ["rt_tokio_1"] }
serde = { version = "*", features = ["derive"] }
serde_json = "*"
log = "*"
env_logger = "*"
dotenv = "*"
toml = "*"
url = "*"
futures = "*"
utoipa = "*"
near-api = "*"
