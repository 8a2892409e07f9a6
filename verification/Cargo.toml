[package]
name = "somescheme"
version = "0.1.0"
edition = "2021"
publish = false

[dependencies]
itertools = "*"
failure = "*"
pretty = { version = "*", features = ["termcolor"] }
structopt = "*"
tempdir = "*"
termcolor = "*"
