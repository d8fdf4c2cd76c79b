[package]
name = "piet_text"
version = "0.1.0"
edition = "2021"
publish = false

[dependencies]
piet = "=0.1.0"
core-text = "=15.0.0"
core-graphics = "=0.19.2"
core-foundation = "=0.7.0"
core-foundation-sys = "=0.7.0"
