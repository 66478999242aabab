[package]
name = "muxio"
version = "0.1.0"
edition = "2021"
publish = false

[dependencies]
chrono = { version = "0.4", default-features = false, features = ["clock", "std"] }
xxhash-rust = { version = "0.8", features = ["xxh3", "const_xxh3"] }
serde = { version = "1", features = ["derive"] }
bitcode = { version = "0.6", features = ["derive"] }
futures = "0.3"
tokio = { version = "1", features = ["rt", "sync"] }
