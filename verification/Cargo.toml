[package]
name = "marjapussi"
version = "0.1.0"
edition = "2021"
publish = false

[dependencies]
chrono = "*"
rand = "*"
clap = "*"
indicatif = "*"
serde = { version = "*", features = ["derive"] }
serde_json = "*"
