[package]
name = "redisish"
version = "0.1.0"
edition = "2021"
publish = false

[dependencies]
itertools = "*"
tokio = { version = "1", features = ["full"] }
crossterm = "0.25"
tui = "0.19"
anyhow = "1"
leveldb-sys = "*"
libc = "0.2"
