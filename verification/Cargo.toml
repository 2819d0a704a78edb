[package]
name = "sail_lance"
version = "0.1.0"
edition = "2021"
publish = false

[dependencies]
arrow = { version = "=59.3.2", features = ["ffi"] }
arrow-schema = "=59.3.2"
async-trait = "*"
datafusion-common = "=55.2.0"
datafusion-expr = { version = "=55.2.0", default-features = false }
futures = "*"
half = "=2.7.1"
tokio = { version = "*", features = ["sync", "rt"] }

[dev-dependencies]
datafusion-physical-expr = "=55.2.0"
