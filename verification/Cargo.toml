[package]
name = "canvas_grid"
version = "0.1.0"
edition = "2021"
publish = false

[dependencies]
wasm-bindgen = "*"
js-sys = "*"
web-sys = { version = "*", features = ["CanvasRenderingContext2d", "HtmlCanvasElement", "HtmlElement", "Element", "Node", "EventTarget", "Window"] }
console_error_panic_hook = "*"
