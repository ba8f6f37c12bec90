[package]
name = "canopy"
version = "0.1.0"
edition = "2021"
publish = false

[dependencies]
slotmap = "1"
ahash = "0.8"
smallvec = "1"
bytemuck = { version = "1", features = ["derive"] }
glam = "*"
thiserror = "*"
tracing = "0.1"
tracing-subscriber = "0.3"
parking_lot = "*"
noise = "*"
wasm-bindgen = "*"
