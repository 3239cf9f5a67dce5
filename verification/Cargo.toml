[package]
name = "biver"
version = "0.1.0"
edition = "2021"
publish = false

[dependencies]
bs58 = "*"
uuid = { version = "*", features = ["v4"] }
chrono = "*"
chrono-humanize = "*"
xxhash-rust = { version = "*", features = ["xxh3"] }
clap = { version = "*", features = ["derive", "env"] }
colored = "*"
