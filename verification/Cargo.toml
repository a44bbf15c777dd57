[package]
name = "etac"
version = "0.1.0"
edition = "2021"
publish = false

[dependencies]
ariadne = "0.5"
clap = { version = "4", features = ["derive"] }
lalrpop-util = "0.22"
pretty = "0.12"
env_logger = "0.11"

[dev-dependencies]
tempfile = "3"
