[package]
name = "spireai"
version = "0.1.0"
edition = "2021"
publish = false

[dependencies]
im = "15"
itertools = "0.10"
lazy_static = "1"
num = "0.4"
num-integer = "0.1"
rand = "0.8"
ron = "0.8"
rustc-hash = "1"
serde = { version = "1", features = ["derive"] }
serde_json = "1"
strum_macros = "0.24"
uuid = { version = "1", features = ["v4"] }
