[package]
name = "paxos_kv"
version = "0.1.0"
edition = "2021"
publish = false

[dependencies]
crc32fast = "1"
bincode = "1"
serde = "1"
serde_derive = "1"
rand = "0.8"
uuid = { version = "1", features = ["v4"] }
