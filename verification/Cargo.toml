[package]
name = "kefctl"
version = "0.1.0"
edition = "2021"
publish = false

[dependencies]
url = "*"
xmltree = "*"
ssdp-client = "*"
reqwest = { version = "*", default-features = false }
futures = "*"
clap = { version = "*", features = ["derive"] }
simple-error = "*"
