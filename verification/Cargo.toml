[package]
name = "moonfire-db"
version = "0.1.0"
edition = "2021"
publish = false

[dependencies]
failure = "=0.1.8"
fnv = "=1.0.7"
lru-cache = "=0.1.2"
openssl = "=0.10.82"
parking_lot = "=0.5.5"
rusqlite = { version = "0.31", features = ["bundled"] }
time = "=0.1.45"
uuid = { version = "=0.6.5", features = ["v4"] }
