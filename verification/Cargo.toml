[package]
name = "ks_lxi"
version = "0.1.0"
edition = "2021"

[dependencies]
lxi = "*"
