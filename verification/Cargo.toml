[package]
name = "beamy_glitch"
version = "0.1.0"
edition = "2021"
publish = false

[dependencies]
wmidi = "*"
vst = "*"
num_enum = "*"
