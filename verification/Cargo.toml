[package]
name = "maodie_compiler"
version = "0.1.0"
edition = "2021"
publish = false

[dependencies]
unicode-ident = "1"
serde = { version = "1", features = ["derive"] }
serde_json = "1"
