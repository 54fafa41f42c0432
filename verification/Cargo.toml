[package]
name = "stork"
version = "0.1.0"
edition = "2021"
publish = false

[dependencies]
url = "*"
twox-hash = "*"
reqwest = { version = "*", default-features = false, features = ["blocking"] }
select = "*"
argh = "*"
