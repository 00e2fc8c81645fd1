[package]
name = "luks_header_backup"
version = "0.1.0"
edition = "2021"
publish = false

[dependencies]
sha2 = "0.10"
anyhow = "1"
clap = { version = "4", features = ["derive"] }
env_logger = "*"
log = "0.4"
nix = { version = "*", features = ["user", "hostname"] }
tempfile = "3"
