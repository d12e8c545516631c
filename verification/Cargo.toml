[package]
name = "inlay_hint_cache"
version = "0.1.0"
edition = "2021"
publish = false

[dependencies]
anyhow = "1"
futures = "0.3"
log = "0.4"
parking_lot = "0.11"
smol = "1.2"
