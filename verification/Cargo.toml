[package]
name = "sniproxy_ng"
version = "0.1.0"
edition = "2021"
publish = false

[dependencies]
ring = "0.17"
tokio = { version = "1", features = ["full"] }
fast-socks5 = "*"
serde = { version = "1", features = ["derive"] }
toml = "*"
thiserror = "*"
tracing = "*"
tracing-subscriber = { version = "*", features = ["env-filter"] }
