[package]
name = "request_cookies"
version = "0.1.0"
edition = "2021"
publish = false

[dependencies]
cookie = { version = "0.11", default-features = false }
http = "0.1"
