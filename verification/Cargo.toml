[package]
name = "loadgen"
version = "0.1.0"
edition = "2021"
publish = false

[dependencies]
devtimer = "*"
getopts = "*"
openssl = "*"
