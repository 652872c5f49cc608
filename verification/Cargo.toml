[package]
name = "vnc"
version = "0.4.0"
edition = "2021"
publish = false

[dependencies]
byteorder = "1"
flate2 = "1"
num-bigint = "0.4"
rust-crypto = "*"
octavo = "*"
log = "0.4"
env_logger = "*"
clap = "2"
