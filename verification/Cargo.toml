[package]
name = "doh_proxy"
version = "0.1.0"
edition = "2021"
publish = false

[dependencies]
dns-parser = "0.8"
native-tls = "0.2"
rayon = "1"
log = "0.4"
simple_logger = "1"
tokio = { version = "1", features = ["rt-multi-thread", "net"] }
