[package]
name = "mogeefont"
version = "0.1.0"
edition = "2021"
publish = false

[dependencies]
az = "=1.2.1"
base64 = "=0.21.7"
clap = { version = "=4.6.7", features = ["derive"] }
console_error_panic_hook = "=0.1.7"
embedded-graphics = "=0.8.2"
embedded-graphics-web-simulator = "=0.4.0"
embedded-text = "=0.7.3"
image = { version = "=0.25.10", default-features = false, features = ["png"] }
tree-sitter = "=0.20.10"
tree-sitter-elm = "=5.7.0"
unescape = "=0.1.0"
wasm-bindgen = "=0.2.129"
