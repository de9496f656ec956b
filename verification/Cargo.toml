[package]
name = "geo_ruler"
version = "0.1.0"
edition = "2021"
publish = false

[dependencies]
num-traits = "*"
wasm-bindgen = "*"
wide = "*"
geo = "*"
