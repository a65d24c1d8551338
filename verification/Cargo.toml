[package]
name = "match_store"
version = "0.1.0"
edition = "2021"
publish = false

[dependencies]
sled = "0.34"
zstd = "*"
bincode = { version = "2", features = ["serde"] }
serde = "1"
serde_json = "1"
chrono = "0.4"
urlencoding = "2"
reqwest = { version = "*", default-features = false, features = ["json"] }
tokio = { version = "1", features = ["rt-multi-thread", "macros", "sync", "time"] }
feed-rs = "*"
dotenvy = "*"
