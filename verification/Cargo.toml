[package]
name = "grid_path"
version = "0.1.0"
edition = "2021"
publish = false

[dependencies]
yew = "0.19"
stylist = { version = "0.10", features = ["yew_integration"] }
web-sys = { version = "0.3", features = ["HtmlInputElement", "MouseEvent"] }
wasm-bindgen = "0.2"
wasm-logger = "0.2"
