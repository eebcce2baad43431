[package]
name = "patmatch"
version = "0.1.0"
edition = "2021"
publish = false

[dependencies]
frunk = "=0.5.0"
