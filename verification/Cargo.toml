[package]
name = "dhanush"
version = "0.1.0"
edition = "2021"
publish = false

[dependencies]
byte-unit = "5"
clap = { version = "4", features = ["derive"] }
colored = "2"
hdrhistogram = { version = "7", default-features = false }
humantime = "2"
indicatif = "0.17"
num_cpus = "1"
rand = "0.8"
reqwest = { version = "0.12", default-features = false, features = ["rustls-tls", "gzip", "brotli"] }
serde = { version = "1", features = ["derive"] }
serde_json = "1"
serde_yaml = "0.9"
tokio = { version = "1", features = ["rt-multi-thread", "macros", "time", "sync"] }
tokio-util = "0.7"
