[package]
name = "http_client"
version = "0.1.0"
edition = "2021"
publish = false

[dependencies]
async-io = "*"
async-tls = "*"
futures-lite = "*"
http = "*"
js-sys = "*"
log = "*"
simple-error = "*"
wasm-bindgen = "*"
wasm-bindgen-futures = "*"
web-sys = { version = "*", features = ["Headers", "Request", "RequestInit", "RequestMode", "Response", "Window"] }
