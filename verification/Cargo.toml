[package]
name = "infinite_life"
version = "0.1.0"
edition = "2021"
publish = false

[dependencies]
glam = "*"
itertools = "*"
raylib = "*"
