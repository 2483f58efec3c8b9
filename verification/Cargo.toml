[package]
name = "zinc_oxide"
version = "0.1.0"
edition = "2021"
publish = false

[dependencies]
git2 = { version = "*", default-features = false }
gumdrop = "*"
color-eyre = { version = "*", default-features = false }
