[package]
name = "rs-modbus"
version = "2.0.0"
edition = "2021"
publish = false

[dependencies]
async-trait = "0.1"
serialport = { version = "4", default-features = false }
thiserror = "2"
tokio = { version = "1", features = ["io-util", "macros", "net", "rt-multi-thread", "sync", "time"] }
