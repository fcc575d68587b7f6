[package]
name = "pikabit"
version = "0.1.0"
edition = "2021"
publish = false

[dependencies]
byteorder = "1"
rand = "0.8"
regex = "1"
sha1 = "0.10"
urlencoding = "2"
anyhow = "1"
clap = { version = "4", features = ["derive"] }
crossterm = "0.27"
futures = "0.3"
log = "0.4"
log4rs = "1"
reqwest = { version = "0.11", default-features = false }
serde = "1"
serde_bencode = "0.2"
serde_bytes = "0.11"
serde_derive = "1"
serde_qs = "0.12"
tokio = { version = "1", features = ["full"] }
