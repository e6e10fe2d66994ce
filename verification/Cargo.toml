[package]
name = "tracing_ext"
version = "0.1.0"
edition = "2021"
publish = false

[dependencies]
colored = "2"
time = { version = "0.3", features = ["formatting"] }
tracing = "0.1"
tracing-subscriber = { version = "0.3", default-features = false, features = ["registry", "std"] }
