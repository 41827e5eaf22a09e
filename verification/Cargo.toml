[package]
name = "cardapio-geo-api"
version = "0.1.0"
edition = "2021"
publish = false

[dependencies]
anyhow = "1"
serde_json = "1"
spin-sdk = "3"
thiserror = "1"
