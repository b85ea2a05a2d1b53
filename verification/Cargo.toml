[package]
name = "scorer_kit"
version = "0.1.0"
edition = "2021"
publish = false

[dependencies]
anyhow = "1"
clap = { version = "4", features = ["derive"] }
csv = "1"
humansize = "2"
lightning = "0.2"
lightning-invoice = "0.34"
serde = { version = "1", features = ["derive"] }
serde_json = "1"

[dev-dependencies]
bitcoin = "0.32"
