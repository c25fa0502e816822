[package]
name = "ironfoil_core"
version = "0.3.0"
edition = "2021"
publish = false

[dependencies]
crc32c = "0.6"
percent-encoding = "2"
humansize = "2"
nusb = "0.2"
clap = { version = "4", features = ["derive"] }
color-eyre = "0.6"
walkdir = "2"
log = "0.4"
env_logger = "0.11"
indicatif = "0.17"
thiserror = "2"
serde = { version = "1", features = ["derive"] }
