[package]
name = "yt_download"
version = "0.1.0"
edition = "2021"
publish = false

[dependencies]
json = "*"
reqwest = { version = "*", default-features = false, features = ["rustls-tls", "stream"] }
tokio = { version = "*", features = ["macros", "rt"] }
clap = { version = "*", features = ["derive"] }
indicatif = "*"
futures-util = "*"
