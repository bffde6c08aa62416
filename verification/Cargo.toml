[package]
name = "ts_rpc"
version = "0.1.0"
edition = "2021"
publish = false

[dependencies]
axum = "0.6"
erased-serde = "0.3"
hyper = "0.14"
inventory = "0.3"
once_cell = "1"
proc-macro-crate = "1"
proc-macro2 = "1"
quote = "1"
serde = { version = "1", features = ["derive"] }
serde_json = "1"
syn = { version = "2", features = ["full"] }
ts-rs = "*"
