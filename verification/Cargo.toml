[package]
name = "ubjson_rs"
version = "0.1.0"
edition = "2021"

[dependencies]
serde = "1"
thiserror = "1"
