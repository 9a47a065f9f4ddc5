[package]
name = "framegate"
version = "0.1.0"
edition = "2021"
publish = false

[dependencies]
bincode = "1"
serde = "1"
log = "0.4"
igd = { version = "0.12", features = ["aio"] }
local-ip-address = "*"
tokio = { version = "1", features = ["net", "io-util", "rt", "rt-multi-thread", "time"] }
