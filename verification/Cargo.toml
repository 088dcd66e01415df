[package]
name = "eveonline_helper"
version = "0.1.0"
edition = "2021"
publish = false

[dependencies]
keyring = "*"
reqwest = { version = "*", default-features = false, features = ["blocking", "json"] }
serde = { version = "*", features = ["derive"] }
sqlx = { version = "*", default-features = false, features = ["runtime-tokio", "sqlite"] }
