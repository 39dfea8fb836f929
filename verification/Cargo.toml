[package]
name = "fci4096"
version = "0.1.4"
edition = "2021"
publish = false

[dependencies]
sha2 = "0.10"
pbkdf2 = "0.12"
unicode-normalization = "0.1"
getrandom = "0.2"
serde = { version = "1", features = ["derive"] }
wasm-bindgen = "0.2"
