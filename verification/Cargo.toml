[package]
name = "jscpdrs"
version = "0.1.0"
edition = "2021"
publish = false

[dependencies]
rust-crypto = "=0.2.36"
swc_common = "=26.0.0"
swc_ecma_parser = { version = "=45.1.6", features = ["unstable"] }
ignore = "=0.4.33"
clap = "=4.6.7"
serde = { version = "=1.0.229", features = ["derive"] }
serde_json = "=1.0.151"
