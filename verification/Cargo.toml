[package]
name = "chooser"
version = "0.1.0"
edition = "2021"
publish = false

[dependencies]
regex = "*"
structopt = "*"
