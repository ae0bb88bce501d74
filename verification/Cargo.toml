[package]
name = "antisun"
version = "0.1.0"
edition = "2021"
publish = false

[dependencies]
nalgebra-glm = "*"
wasm-bindgen = "*"
js-sys = "*"
web-sys = { version = "*", features = ["console", "Window", "Document", "Element", "HtmlCanvasElement", "CanvasRenderingContext2d"] }
console_error_panic_hook = "*"
