[package]
name = "doko"
version = "0.2.0"
edition = "2021"
publish = false

[dependencies]
proc-macro2 = "=1.0.107"
quote = "1"
syn = { version = "=2.0.119", features = ["full"] }
