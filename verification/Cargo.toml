[package]
name = "hashring"
version = "0.3.6"
edition = "2021"
publish = false

[dependencies]
siphasher = "1"
