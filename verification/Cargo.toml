[package]
name = "triathalon_of_life"
version = "0.1.0"
edition = "2021"
publish = false

[dependencies]
array-init = "2"
rand = "0.8"
piston_window = "*"
piston2d-graphics = "*"
