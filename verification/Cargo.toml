[package]
name = "schemsearch"
version = "0.1.0"
edition = "2021"
publish = false

[dependencies]
named-binary-tag = "*"
clap = { version = "*", features = ["cargo"] }
rayon = "*"
indicatif = "*"
serde = { version = "*", features = ["derive"] }
serde_json = "*"

[dev-dependencies]
flate2 = "*"
