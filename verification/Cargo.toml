[package]
name = "mcpmux_transport"
version = "0.1.0"
edition = "2021"
publish = false

[dependencies]
which = "*"
dirs = "*"
tokio = { version = "*", features = ["rt-multi-thread", "process", "io-util", "time", "sync", "macros"] }
uuid = { version = "*", features = ["v4"] }
zeroize = "*"
