[package]
name = "xdcc_fetch"
version = "0.1.0"
edition = "2021"

[dependencies]
getopts = "*"
pbr = "*"
