[package]
name = "rayn"
version = "0.1.0"
edition = "2021"

[dependencies]
cgmath = "*"
minifb = "*"
num = "*"
rayon = "*"
