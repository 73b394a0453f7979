[package]
name = "cortx"
version = "0.1.0"
edition = "2021"
publish = false

[dependencies]
chrono = "*"
clap = { version = "*", features = ["derive"] }
rayon = "*"
serde = { version = "*", features = ["derive"] }
serde_json = "*"
serde_yaml = "*"
toml = "*"
unicode-normalization = "*"
uuid = { version = "*", features = ["v4"] }
walkdir = "*"
