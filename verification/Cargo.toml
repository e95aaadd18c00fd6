[package]
name = "layered_config"
version = "0.1.0"
edition = "2021"
publish = false

[dependencies]
config = "*"
redis = { version = "*", default-features = false }
sqlx = { version = "*", default-features = false, features = ["postgres"] }
