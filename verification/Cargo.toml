[package]
name = "libhorao"
version = "0.1.0"
edition = "2021"
publish = false

[dependencies]
config = { version = "*", default-features = false, features = ["toml"] }
dirs = "*"
lazy_static = "1"
serde = { version = "1", features = ["derive"] }
