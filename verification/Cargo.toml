[package]
name = "fasttube_downloader"
version = "0.1.0"
edition = "2021"
publish = false

[dependencies]
anyhow = "1"
futures = "0.3"
reqwest = { version = "0.12", default-features = false }
tokio = { version = "1", default-features = false, features = ["rt-multi-thread", "fs", "io-util", "sync"] }
