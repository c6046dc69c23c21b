[package]
name = "peasub"
version = "0.1.0"
edition = "2021"
publish = false

[dependencies]
bytes = "1"
lru = "*"
parking_lot = "0.12"
pea2pea = "*"
peashape = "*"
rand = "0.9"
thiserror = "2"
tokio = { version = "1", features = ["macros", "rt-multi-thread", "sync", "time"] }
tokio-util = { version = "0.7", features = ["codec"] }
tracing = "0.1"
