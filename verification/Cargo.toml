[package]
name = "exch"
version = "0.1.0"
edition = "2021"
publish = false

[dependencies]
tungstenite = "0.24"
