[package]
name = "whoosh"
version = "0.1.0"
edition = "2021"
publish = false

[dependencies]
serde = { version = "=1.0.229", features = ["derive"] }
toml = { version = "=1.1.7", features = ["preserve_order"] }
signal-hook = "=0.4.5"
