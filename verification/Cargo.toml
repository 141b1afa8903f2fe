[package]
name = "follow_the_arrows"
version = "0.1.0"
edition = "2021"
publish = false

[dependencies]
nannou = "0.19"
