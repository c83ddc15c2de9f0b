[package]
name = "optical_protocol"
version = "0.1.0"
edition = "2021"
publish = false

[dependencies]
rsa = "=0.9.10"
pkcs1 = "=0.7.5"
rand = "=0.8.8"
tokio = { version = "=1.53.2", features = ["net", "rt-multi-thread", "io-util", "macros", "sync", "time"] }
