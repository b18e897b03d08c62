[package]
name = "browser"
version = "0.1.0"
edition = "2021"
publish = false

[dependencies]
env_logger = "0.11"
rustls = { version = "0.23", default-features = false, features = ["ring", "std", "tls12", "logging"] }
rusttype = "0.9"
softbuffer = "0.4"
webpki-roots = "0.26"
winit = "0.30"
