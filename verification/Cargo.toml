[package]
name = "code_maven"
version = "0.1.0"
edition = "2021"
publish = false

[dependencies]
markdown = "1"
chrono = "0.4"
liquid = "0.26"
liquid-core = "0.26"
serde = { version = "1", features = ["derive"] }
serde_yaml = "0.9"
clap = { version = "4", features = ["derive"] }
kstring = "=2.0.0"
log = "0.4"
simple_logger = "*"
feed-rs = "*"
