[package]
name = "golf_judge"
version = "0.1.0"
edition = "2021"
publish = false

[dependencies]
discord = "0.8"
dotenv = "0.15"
reqwest = { version = "0.11", default-features = false, features = ["blocking", "rustls-tls"] }
