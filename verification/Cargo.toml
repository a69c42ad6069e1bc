[package]
name = "timetable"
version = "0.1.0"
edition = "2021"
publish = false

[dependencies]
actix-files = "*"
actix-web = { version = "*", default-features = false, features = ["macros"] }
async-trait = "*"
chrono = "=0.4.45"
dotenv = "*"
env_logger = "*"
log = "*"
md5 = "=0.8.1"
redis = "*"
reqwest = { version = "=0.13.5", default-features = false, features = ["query"] }
serde = { version = "*", features = ["derive"] }
serde_json = "=1.0.151"
