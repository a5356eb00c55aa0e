[package]
name = "oilrs"
version = "0.1.0"
edition = "2021"
publish = false

[dependencies]
fnv = "1"
fxhash = "0.2"
rand = "0.8"
