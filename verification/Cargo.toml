[package]
name = "proxy_core"
version = "0.1.0"
edition = "2021"
publish = false

[dependencies]
rand = "*"
hpack = "*"
mio = { version = "*", features = ["net", "os-poll"] }
