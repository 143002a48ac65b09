[package]
name = "generate_summary"
version = "0.1.0"
edition = "2021"
publish = false

[dependencies]
anyhow = "*"
mdbook = { version = "=0.4.52", default-features = false }
toml = "*"
