[package]
name = "wasp_gateway"
version = "0.1.0"
edition = "2021"
publish = false

[dependencies]
rand = "0.8"
anyhow = "1"
hyper = { version = "0.14", features = ["http1", "server", "tcp"] }
structopt = "0.3"
tokio = { version = "1", features = ["rt-multi-thread", "macros", "net"] }
