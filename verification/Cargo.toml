[package]
name = "eval_rs"
version = "0.1.0"
edition = "2021"
publish = false

[dev-dependencies]
expect-test = "1"
