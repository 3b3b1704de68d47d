[package]
name = "rudis"
version = "0.1.0"
edition = "2021"
publish = false

[dependencies]
bytes = "1"
tokio = { version = "1", features = ["full"] }
structopt = "0.3"
tracing = "0.1"
tracing-subscriber = "0.3"
