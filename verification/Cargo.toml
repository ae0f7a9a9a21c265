[package]
name = "feedpipe"
version = "0.1.0"
edition = "2021"
publish = false

[dependencies]
nostr-sdk = "*"
tokio = { version = "*", features = ["rt-multi-thread", "macros", "sync", "time"] }
log = "*"
env_logger = "*"
dotenv = "*"
