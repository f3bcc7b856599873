[package]
name = "foxy_ecs"
version = "0.1.0"
edition = "2021"
publish = false

[dependencies]
uuid = { version = "*", features = ["v4"] }
anyhow = "*"
thiserror = "*"
lazy_static = "*"
tracing = "*"
tracing-subscriber = "*"
tracing-unwrap = "*"
