[package]
name = "secret_santa"
version = "0.1.0"
edition = "2021"
publish = false

[dependencies]
rand = "*"
rusoto_core = { version = "0.48", default-features = false, features = ["rustls"] }
rusoto_ses = { version = "0.48", default-features = false, features = ["rustls"] }
tokio = { version = "*", features = ["rt", "macros"] }
