[package]
name = "nx"
version = "0.1.0"
edition = "2021"
publish = false

[dependencies]
byteorder = "1"
encoding_rs = "0.8"
clap = { version = "4", features = ["derive"] }
color-eyre = "0.6"
env_logger = "*"
log = "0.4"
ron = "*"
serde = { version = "1", features = ["derive"] }
thiserror = "*"
walkdir = "2"
quaternion-core = "*"
