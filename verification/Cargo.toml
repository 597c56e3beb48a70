[package]
name = "whaledrive"
version = "0.1.0"
edition = "2021"
publish = false

[dependencies]
anyhow = "*"
camino = "*"
clap = { version = "*", features = ["derive"] }
flate2 = "*"
fs_extra = "*"
reqwest = { version = "*", default-features = false, features = ["json", "rustls-tls"] }
serde = { version = "*", features = ["derive"] }
serde_json = "*"
tar = "*"
tempfile = "*"
tokio = { version = "*", features = ["macros", "rt-multi-thread", "fs", "io-util"] }
which = "*"
