[package]
name = "tsukuyomi"
version = "0.1.0"
edition = "2021"
publish = false

[dependencies]
http = "0.1"
cookie = { version = "0.11", features = ["percent-encode"] }
mime = "0.3"
time = "0.1"
serde = "1"
serde_urlencoded = "0.5"
futures = "0.1"
bytes = "0.4"
filetime = "0.2"
