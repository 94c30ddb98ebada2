[package]
name = "chum_resolver"
version = "0.1.0"
edition = "2021"
publish = false

[dependencies]
roxmltree = "*"
flate2 = "*"
regex = "*"
hyper = { version = "0.14", features = ["full"] }
hyper-tls = "0.5"
http = "0.2"
tokio = { version = "1", features = ["full"] }
