[package]
name = "pree"
version = "0.1.0"
edition = "2021"
publish = false

[dependencies]
rand = "0.10"
speedy2d = { version = "2", default-features = false }
wasm-bindgen = "0.2"
web-sys = { version = "0.3", features = ["Window", "Document", "Element", "HtmlCanvasElement"] }
sharded-slab = "0.1"
