[package]
name = "wallet_core"
version = "0.1.0"
edition = "2021"
publish = false

[dependencies]
magic-crypt = "=3.1.13"
ethers-core = "=2.0.14"
ethers-signers = "=2.0.14"
coins-bip39 = "=0.8.7"
rand = "=0.8.8"
serde = { version = "=1.0.229", features = ["derive"] }
serde_json = "=1.0.151"
wasm-bindgen = "=0.2.129"
web-sys = { version = "=0.3.106", features = ["Window", "Storage"] }
console_error_panic_hook = "=0.1.7"
reqwest = { version = "=0.11.27", default-features = false }
