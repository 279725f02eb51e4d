[package]
name = "microtree"
version = "0.1.0"
edition = "2021"
publish = false

[dependencies]
smol_str = "0.2"
text-size = "1"
logos = "0.12"
anyhow = "1"
pico-args = "0.5"
