[package]
name = "fiis"
version = "0.1.0"
edition = "2021"
publish = false

[dependencies]
ringbuffer = "*"
hound = "*"
clap = { version = "4", features = ["derive"] }
colored = "*"
indicatif = "*"
