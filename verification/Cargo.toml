[package]
name = "installation"
version = "0.1.0"
edition = "2021"
publish = false

[dependencies]
anyhow = "=1.0.104"
crossterm = "=0.27.0"
fs-err = "=2.11.0"
indicatif = "=0.17.11"
log = "=0.4.34"
tokio = { version = "=1.54.1", features = ["rt-multi-thread"] }
zip = { version = "0.6", default-features = false, features = ["deflate"] }
