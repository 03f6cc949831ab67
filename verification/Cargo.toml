[package]
name = "yew"
version = "0.1.0"
edition = "2021"
publish = false

[dependencies]
indexmap = { version = "1.9", features = ["std"] }
wasm-bindgen = "0.2"
wasm-bindgen-futures = "0.4"
web-sys = { version = "0.3", features = ["Document", "Element", "HtmlElement", "Node", "Text", "Window"] }
