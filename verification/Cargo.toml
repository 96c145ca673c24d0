[package]
name = "wikidump"
version = "0.1.0"
edition = "2021"
publish = false

[dependencies]
quick-xml = "0.37"
flate2 = "1"
bzip2 = "*"
clap = { version = "4", features = ["derive"] }
