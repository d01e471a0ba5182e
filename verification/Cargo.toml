[package]
name = "ejectest"
version = "0.3.0"
edition = "2021"
publish = false

[dependencies]
syn = { version = "2", features = ["full", "parsing"] }
thiserror = "2"
anyhow = "1"
clap = { version = "4", features = ["derive"] }
env_logger = "0.11"
ignore = "0.4"
