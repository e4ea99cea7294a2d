[package]
name = "wolfram_wxf"
version = "0.1.0"
edition = "2021"
publish = false

[dependencies]
clap = "2.34"
flate2 = "1"
integer-encoding = "*"
json5 = "0.4"
num = "0.4"
serde = "1"
serde_json = "1"
serde-pickle = "1"
toml = "0.8"
yaml-rust = "0.4"
