[package]
name = "staticfile"
version = "0.1.0"
edition = "2021"
publish = false

[dependencies]
httpdate = "1"
rand = "0.8"
mime_guess = "2"
http-range = "0.1"
tokio = { version = "1", features = ["fs", "rt"] }
hyper = "1"
http = "1"
