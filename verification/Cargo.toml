[package]
name = "tem_core"
version = "0.1.0"
edition = "2021"
publish = false

[dependencies]
clap = { version = "4", features = ["derive"] }
colorfully = "*"
env_logger = "*"
