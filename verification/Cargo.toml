[package]
name = "sync_clipboard"
version = "0.1.0"
edition = "2021"
publish = false

[dependencies]
async-std = { version = "1", features = ["attributes"] }
chrono = "0.4"
copypasta = "*"
env_logger = "0.10"
futures-lite = "1"
futures-util = "0.3"
log = "0.4"
structopt = "0.3"
webbrowser = "*"
