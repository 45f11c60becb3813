[package]
name = "snwf"
version = "0.1.0"
edition = "2021"
publish = false

[dependencies]
blake2 = "=0.11.0"
socket2 = { version = "0.4", features = ["all"] }
tokio = { version = "=1.53.2", features = ["full"] }
tokio-udt = "=0.1.0-alpha.8"
