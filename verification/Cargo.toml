[package]
name = "klgp"
version = "0.1.0"
edition = "2021"
publish = false

[dependencies]
rand = "0.7"
csv = "1"
toml = "0.5"
