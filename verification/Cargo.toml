[package]
name = "ferriscuit"
version = "0.1.0"
edition = "2021"
publish = false

[dependencies]
chrono = "*"
flate2 = "*"
socket2 = "*"
tokio = { version = "*", features = ["rt", "rt-multi-thread", "net", "io-util", "sync", "time", "fs"] }
