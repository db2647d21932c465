[package]
name = "walk_requests"
version = "0.1.0"
edition = "2021"
publish = false

[dependencies]
chrono = { version = "=0.4.45", features = ["serde"] }
anyhow = "=1.0.104"
serde = { version = "=1.0.229", features = ["derive"] }
futures = "=0.3.34"
actix-web = { version = "=4.18.1", default-features = false, features = ["macros"] }
mongodb = { version = "=2.8.2", features = ["tokio-sync"] }
dotenv = "=0.15.0"
env_logger = "=0.11.11"
nb-from-env = "*"
nb-field-names = "*"
