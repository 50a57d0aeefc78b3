[package]
name = "dns_responder"
version = "0.1.0"
edition = "2021"
publish = false

[dependencies]
bytes = "1"
tokio = { version = "1", features = ["net", "rt-multi-thread", "macros"] }
simple_logger = "*"
