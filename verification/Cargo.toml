[package]
name = "frontend"
version = "0.1.0"
edition = "2021"
publish = false

[dependencies]
bimap = "0.6"
regex = "1"
codespan-reporting = "0.11"
itertools = "0.10"
