[package]
name = "unknown_fields"
version = "0.1.0"
edition = "2021"
publish = false

[dependencies]
bytes = "1"
serde = { version = "1", features = ["derive"] }
anyhow = "1"
proc-macro2 = "1"
quote = "1"
syn = "2"
