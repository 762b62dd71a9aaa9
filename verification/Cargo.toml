[package]
name = "lore_revision"
version = "0.1.0"
edition = "2021"
publish = false

[dependencies]
async-trait = "0.1"
bytes = "1"
crossbeam = "0.8"
dashmap = "6"
diffy = "0.4"
hex = "0.4"
serde = { version = "1", features = ["derive"] }
tokio = { version = "1", features = ["fs", "io-util", "macros", "rt", "rt-multi-thread", "sync", "time"] }
tokio-util = "0.7"
toml = "0.8"
url = "2"
uuid = { version = "1", features = ["v7"] }
