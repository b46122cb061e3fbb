[package]
name = "kuehlmak"
version = "0.1.0"
edition = "2021"
publish = false

[dependencies]
rand = { version = "0.8", features = ["small_rng"] }
serde = { version = "1", features = ["derive"] }
serde_json = "1"
toml = "*"
threadpool = "*"
clap = "*"
