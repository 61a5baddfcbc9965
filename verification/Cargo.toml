[package]
name = "craftsmen"
version = "0.1.0"
edition = "2021"
publish = false

[dependencies]
rstar = "*"
simsearch = "*"
serde = { version = "1", features = ["derive"] }
serde_json = "1"
actix-web = "4"
env_logger = "*"
