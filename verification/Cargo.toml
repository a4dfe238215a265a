[package]
name = "utxo_monitor"
version = "0.1.0"
edition = "2021"
publish = false

[dependencies]
bitcoin = "0.32"
hex = "0.4"
serde_json = "1"
zmq = "0.10"
reqwest = { version = "0.12", features = ["blocking"] }
diesel = { version = "2", features = ["postgres", "r2d2"] }
dotenvy = "0.15"
once_cell = "1"
