[package]
name = "actant"
version = "0.1.0"
edition = "2021"
publish = false

[dependencies]
xxhash-rust = { version = "0.8", features = ["xxh3"] }
dashmap = "6"
parking_lot = "0.12"
postcard = { version = "1", default-features = false, features = ["alloc"] }
rkyv = "0.8"
serde = { version = "1", features = ["derive"] }
heed = "0.20"
fs-err = "3"
tokio = { version = "1", features = ["rt", "rt-multi-thread", "sync", "time", "macros"] }
futures = "0.3"
async-trait = "0.1"
tracing = "0.1"

[dev-dependencies]
tempfile = "3"
