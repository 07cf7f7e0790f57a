[package]
name = "crate_proxy"
version = "0.1.0"
edition = "2021"
publish = false

[dependencies]
mime = "0.3"
hyper = "0.10"
