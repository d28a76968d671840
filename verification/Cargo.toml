[package]
name = "netsweep"
version = "0.1.0"
edition = "2021"
publish = false

[dependencies]
ipnet = "2"
clap = { version = "4", features = ["derive"] }
futures = "0.3"
indicatif = "0.17"
pnet = "*"
rand = "0.8"
serde = { version = "1", features = ["derive"] }
surge-ping = "*"
tokio = { version = "1", features = ["full"] }
trust-dns-resolver = "*"
