[package]
name = "crosswalk"
version = "0.1.0"
edition = "2021"
publish = false

[dependencies]
anyhow = "*"
log = "*"
embedded-svc = "*"
esp-idf-svc = "*"
toml-cfg = "*"
