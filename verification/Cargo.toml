[package]
name = "trinci_contract"
version = "0.1.0"
edition = "2021"
publish = false

[dependencies]
trinci-sdk = "*"
serde = "*"
serde_derive = "*"

[dev-dependencies]
hex = "*"
