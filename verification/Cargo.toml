[package]
name = "pueue"
version = "0.1.0"
edition = "2021"
publish = false

[dependencies]
anyhow = "1"
async-tls = "0.11"
ctrlc = "3"
log = "0.4"
rustls = "0.19"
