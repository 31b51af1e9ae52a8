[package]
name = "orbital_elements"
version = "0.1.0"
edition = "2021"
publish = false

[dependencies]
three-d = "=0.19.0"
wasm-bindgen = "=0.2.130"
web-sys = { version = "=0.3.107", features = ["Window", "Document", "Element", "HtmlCanvasElement"] }
js-sys = "=0.3.107"
console_error_panic_hook = "=0.1.7"
