[package]
name = "rxy_core"
version = "0.1.0"
edition = "2021"
publish = false

[dependencies]
indexmap = "2"
ahash = "0.8"
async-channel = "2"
futures-lite = "2"
oneshot = "0.1"
