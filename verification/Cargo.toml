[package]
name = "robofuzz"
version = "0.1.0"
edition = "2021"
publish = false

[dependencies]
regex = "=1.13.1"
url = "=2.5.8"
clap = "=3.2.25"
colorful = "=0.2.2"
crossterm = "=0.27.0"
futures = "=0.3.34"
indicatif = "0.17"
lazy_static = "=1.5.1"
reqwest = "=0.11.27"
tokio = { version = "=1.54.1", features = ["full"] }
