[package]
name = "beam_logic"
version = "0.1.0"
edition = "2021"
publish = false

[dependencies]
serde = { version = "1", features = ["derive"] }
ron = "*"
uuid = { version = "1", features = ["serde"] }
unindent = "*"
anyhow = "1"
