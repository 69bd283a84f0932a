[package]
name = "sandstorm"
version = "0.1.0"
edition = "2021"
publish = false

[dependencies]
bytes = "1"
rust-crypto = "0.2"
rand = "0.8"
zipf = "7"
