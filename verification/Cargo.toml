[package]
name = "koda_core"
version = "0.1.0"
edition = "2021"
publish = false

[dependencies]
regex = "=1.13.1"
memchr = "=2.8.3"
ignore = "=0.4.33"
clap = { version = "=4.6.7", features = ["derive"] }
colored = "=3.1.1"
dotenvy = "=0.15.7"
indicatif = "=0.18.6"
serde = { version = "=1.0.229", features = ["derive"] }
serde_json = "*"
