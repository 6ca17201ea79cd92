[package]
name = "dirtree"
version = "0.1.0"
edition = "2021"
publish = false

[dependencies]
quicli = "0.4"
regex = "1"
structopt = "0.2"
