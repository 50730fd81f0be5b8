[package]
name = "dali"
version = "0.1.0"
edition = "2021"
publish = false

[dependencies]
serde_json = "1"
tokio = { version = "1", features = ["rt-multi-thread", "macros", "net", "io-util", "fs", "time", "sync"] }
clap = { version = "4", features = ["derive"] }
indicatif = "0.17"
hostname = "0.4"
local-ip-address = "0.6"
