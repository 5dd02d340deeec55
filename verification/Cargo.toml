[package]
name = "rust-coding-challenge"
version = "0.1.0"
edition = "2021"
publish = false

[dependencies]
csv = "1"
rust_decimal = { version = "1", features = ["serde-str"] }
serde = { version = "1", features = ["derive"] }
