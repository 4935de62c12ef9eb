[package]
name = "lending_core"
version = "0.1.0"
edition = "2021"
publish = false

[dependencies]
primitive-types = { version = "*", default-features = false }
