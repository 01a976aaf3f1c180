[package]
name = "feed_engine"
version = "0.1.0"
edition = "2021"
publish = false

[dependencies]
rand = "0.9"
axum = "0.8"
chrono = "0.4"
colored = "2"
ctrlc = "3"
dotenv = "0.15"
env_logger = "0.11"
figment = { version = "0.10", features = ["json"] }
jsonwebtoken = "9"
log = "0.4"
serde = { version = "1", features = ["derive"] }
serde_json = "1"
sqlx = { version = "0.8", default-features = false, features = ["mysql", "runtime-tokio"] }
tokio = { version = "1", features = ["full"] }
uuid = "1"
