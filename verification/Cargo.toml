[package]
name = "rfe"
version = "0.1.0"
edition = "2021"
publish = false

[dependencies]
regex = "1"
colored = "*"
rustyline = "*"
arboard = { version = "*", default-features = false }
dirs = "*"
serde_json = "1"
shellexpand = "*"
unicode-width = "*"
walkdir = "2"
