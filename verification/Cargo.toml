[package]
name = "oxibus"
version = "0.1.0"
edition = "2021"
publish = false

[dependencies]
hex = "=0.4.3"
sha1 = "=0.10.7"
rand = "=0.8.8"
serde = { version = "=1.0.229", features = ["derive"] }
toml = "=0.8.23"
libc = "=0.2.191"
tokio = { version = "1", features = ["rt", "net", "io-util", "time", "signal", "macros", "sync"] }
anyhow = "1"
