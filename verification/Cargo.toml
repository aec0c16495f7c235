[package]
name = "w_redis"
version = "0.1.0"
edition = "2021"
publish = false

[dependencies]
atoi = "2"
bytes = "1"
structopt = "0.3"
tokio = { version = "1", features = ["full"] }
tracing = "0.1"
tracing-subscriber = "0.3"
