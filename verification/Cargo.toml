[package]
name = "bittorrent_cli"
version = "0.1.0"
edition = "2021"
publish = false

[dependencies]
sha1 = "0.10"
rand = "0.8"
anyhow = "1"
clap = { version = "4", features = ["derive"] }
reqwest = { version = "*", default-features = false }
tokio = { version = "1", features = ["fs", "io-util", "macros", "net", "rt-multi-thread", "sync", "time"] }
