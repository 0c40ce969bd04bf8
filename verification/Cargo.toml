[package]
name = "mabo"
version = "0.1.0"
edition = "2021"
publish = false

[dependencies]
bytes = "=1.12.1"
heck = "0.5"
num-bigint = "=0.4.8"
