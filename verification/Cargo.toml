[package]
name = "autotune_pipeline"
version = "0.1.0"
edition = "2021"
publish = false

[dependencies]
hound = "=3.5.1"
clap = { version = "=4.4.18", features = ["derive"] }
log = "=0.4.34"
env_logger = "=0.10.2"
