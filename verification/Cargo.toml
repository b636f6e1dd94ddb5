[package]
name = "pairwise_ranked"
version = "0.1.0"
edition = "2021"
publish = false

[dependencies]
ford-johnson = "*"
yew = "0.9"
stdweb = "0.4"
wasm-bindgen = "*"
