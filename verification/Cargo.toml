[package]
name = "wordcount"
version = "0.1.0"
edition = "2021"
publish = false

[dependencies]
hashbrown = "*"
actix-web = { version = "*", default-features = false, features = ["macros"] }
env_logger = "*"

[dev-dependencies]
serde_json = "*"
