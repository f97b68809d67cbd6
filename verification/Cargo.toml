[package]
name = "vtc"
version = "0.1.0"
edition = "2021"
publish = false

[dependencies]
clap = { version = "4", features = ["derive"] }
egg = "*"
num-bigint = "0.4"
num-rational = "0.4"
num-traits = "0.2"
rand = "0.8"
tempfile = "3"
thiserror = "*"
