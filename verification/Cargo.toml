[package]
name = "fluminurs"
version = "0.1.0"
edition = "2021"
publish = false

[dependencies]
chrono = "*"
rand = "*"
scraper = "*"
htmlescape = "*"
serde_json = "*"
serde = { version = "*", features = ["derive"] }
serde_urlencoded = "*"
reqwest = { version = "*", default-features = false, features = ["cookies", "json", "rustls-tls", "stream"] }
tokio = { version = "*", features = ["rt", "rt-multi-thread", "macros", "fs", "process", "io-util"] }
futures-util = "*"
filetime = "*"
clap = "*"
rpassword = "*"
ammonia = "*"
