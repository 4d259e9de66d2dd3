[package]
name = "playlist_formatter"
version = "0.1.0"
edition = "2021"
publish = false

[dependencies]
anyhow = "1"
chrono = { version = "0.4", default-features = false, features = ["std"] }
clap = { version = "4", features = ["derive"] }
colored = "2"
csv = "1"
dunce = "1"
encoding_rs_io = "0.1"
env_logger = "0.11"
home = "0.5"
log = "0.4"
regex = "1"
rust_xlsxwriter = "*"
