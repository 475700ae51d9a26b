[package]
name = "suntimes"
version = "0.1.0"
edition = "2021"
publish = false

[dependencies]
chrono = "0.4"
julian = "*"
log = "0.4"
env_logger = "*"
