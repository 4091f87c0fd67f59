[package]
name = "muhex"
version = "0.1.0"
edition = "2021"

[dependencies]
serde = "1"

[dev-dependencies]
hex = "0.4"
