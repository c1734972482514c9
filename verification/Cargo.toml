[package]
name = "edge_libos"
version = "0.1.0"
edition = "2021"
publish = false

[dependencies]
chrono = { version = "0.4", default-features = false, features = ["clock", "std"] }
rand = { version = "0.8", features = ["small_rng"] }
anyhow = "1"
futures = "0.3"
hickory-resolver = "*"
libc = "0.2"
parking_lot = "0.12"
serde = { version = "1", features = ["derive"] }
socket2 = { version = "*", features = ["all"] }
tokio = { version = "1", features = ["net", "rt", "time", "sync", "macros", "io-util"] }
wasmtime = { version = "45", default-features = false, features = ["async", "runtime", "std"] }
