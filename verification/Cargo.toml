[package]
name = "wahlbergdown"
version = "0.1.0"
edition = "2021"
publish = false

[dependencies]
peekmore = "*"
structopt = "0.3"
