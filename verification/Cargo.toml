[package]
name = "amargo"
version = "0.1.0"
edition = "2021"
publish = false

[dependencies]
clap = { version = "*", features = ["derive"] }
console = "*"
log = "*"
parse-display = "*"
pretty_env_logger = "*"
serde = { version = "*", features = ["derive"] }
toml = "*"
walkdir = "*"
which = "*"
