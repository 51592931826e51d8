[package]
name = "scribble_ball"
version = "0.1.0"
edition = "2021"
publish = false

[dependencies]
bevy = { version = "0.11", default-features = false }
bevy_utils = "0.11"
cfg-if = "1"
wasm-bindgen = "0.2"
wee_alloc = "0.4"
