[package]
name = "blogamer"
version = "0.1.0"
edition = "2021"
publish = false

[dependencies]
sha2 = "*"
bs58 = "*"
pulldown-cmark = "*"
serde_norway = "*"
serde = "*"
image = "*"
clap = { version = "*", features = ["derive"] }
askama = "*"
color-eyre = "*"
