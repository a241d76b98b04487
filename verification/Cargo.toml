[package]
name = "maxmech"
version = "0.1.0"
edition = "2021"
publish = false

[dependencies]
stash = "=0.1.6"
rand = "=0.8.8"
parking_lot = "=0.12.5"
websocket = { version = "=0.27.1", default-features = false, features = ["sync"] }
