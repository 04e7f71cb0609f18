[package]
name = "vantage"
version = "0.9.0"
edition = "2021"
publish = false

[dependencies]
clap = { version = "4", features = ["derive"] }
ctrlc = "3"
reqwest = { version = "0.12", default-features = false, features = ["blocking", "http2", "rustls-tls"] }
serde_json = "1"
terminal_size = "0.4"
