[package]
name = "pathtracer"
version = "0.1.0"
edition = "2021"
publish = false

[dependencies]
cgmath = "=0.18.0"
image = "=0.24.9"
obj-rs = "*"
rand = "=0.8.8"
regex = "=1.13.1"
serde = "=1.0.229"
serde_derive = "=1.0.229"
serde_yaml = "=0.9.34"
