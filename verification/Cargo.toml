[package]
name = "backhand"
version = "0.1.0"
edition = "2021"
publish = false

[dependencies]
deku = "=0.20.3"
liblzma = { version = "=0.4.9", default-features = false, features = ["static"] }
lzma-rust2 = { version = "=0.25.0", default-features = false, features = ["std"] }
no_std_io2 = { version = "=0.9.4", features = ["std"] }
solana-nohash-hasher = "=0.2.1"
tracing = "=0.1.44"
