[package]
name = "interpreter"
version = "0.1.0"
edition = "2021"
publish = false

[dependencies]
miette = { version = "7", features = ["fancy"] }
owo-colors = "4"
thiserror = "2"
logos = "*"
lalrpop-util = "*"
wasm-bindgen = "0.2"
console_error_panic_hook = "0.1"
