[package]
name = "iknow"
version = "0.1.0"
edition = "2021"
publish = false

[dependencies]
anyhow = "1"
async-trait = "0.1"
chrono = "0.4"
colored = "2"
cron = "0.12"
dotenv = "0.15"
env_logger = "0.10"
lazy_static = "1"
lettre = "0.10"
log = "0.4"
reqwest = { version = "0.11", features = ["json", "gzip", "brotli", "deflate"] }
serde = { version = "1", features = ["derive"] }
tera = "1"
term-table = "1"
tokio = { version = "1", features = ["full"] }
