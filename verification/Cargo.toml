[package]
name = "senbei"
version = "0.1.0"
edition = "2021"
publish = false

[dependencies]
anyhow = "1"
console_error_panic_hook = "0.1"
flate2 = "1"
goblin = "0.9"
indicatif = "0.17"
memmap2 = "0.9"
owo-colors = "4"
serde = { version = "1", features = ["derive"] }
serde_json = "1"
sha2 = "0.10"
tempfile = "3"
thiserror = "2"
walkdir = "2"
wasm-bindgen = "0.2"
zip = { version = "2", default-features = false, features = ["deflate"] }
