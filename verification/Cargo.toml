[package]
name = "sentence_counter"
version = "0.2.2"
edition = "2021"
publish = false

[dependencies]
anyhow = "1"
clap = { version = "*", features = ["derive"] }
fslock = "*"
serde = { version = "1", features = ["derive"] }
serde_json = "1"
