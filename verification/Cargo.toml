[package]
name = "embedded_assets"
version = "0.1.0"
edition = "2021"
publish = false

[dependencies]
axum = "*"
mime_guess = "*"
rust-embed = "*"
