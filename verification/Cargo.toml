[package]
name = "ouch"
version = "0.1.2"
edition = "2021"
publish = false

[dependencies]
bzip2 = "*"
clap = "2"
colored = "*"
