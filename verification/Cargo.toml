[package]
name = "pokbotcom"
version = "0.1.0"
edition = "2021"
publish = false

[dependencies]
anyhow = "1"
itertools = "0.13"
rand = "0.8"
thiserror = "1"
