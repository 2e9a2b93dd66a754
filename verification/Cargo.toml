[package]
name = "wikidot_path"
version = "0.1.0"
edition = "2021"
publish = false

[dependencies]
percent-encoding = "*"
wikidot-normalize = "*"
unicase = "*"
serde = { version = "*", features = ["derive"] }
