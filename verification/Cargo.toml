[package]
name = "modem"
version = "0.1.0"
edition = "2021"
publish = false

[dependencies]
crc32fast = "1"
reed-solomon = "0.2"
sha2 = "0.10"
anyhow = "1"
thiserror = "1"
clap = { version = "4", features = ["derive"] }
hound = "3"
serde = { version = "1", features = ["derive"] }
toml = "0.8"
cpal = "0.15"
ratatui = "*"
crossterm = "*"
uniffi = "*"
wasm-bindgen = "0.2"
serde-wasm-bindgen = "*"
console_error_panic_hook = "0.1"
