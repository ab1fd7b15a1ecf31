[package]
name = "intern_string"
version = "0.1.0"
edition = "2021"

[dependencies]
fxhash = "0.2.1"
