[package]
name = "zk_wasm"
version = "0.1.0"
edition = "2021"
publish = false

[dependencies]
ark-bn254 = "*"
ark-groth16 = "*"
ark-serialize = "*"
ark-snark = "*"
base64 = "*"
console_error_panic_hook = "*"
num-bigint = "*"
regex = "*"
serde_json = "*"
serde-wasm-bindgen = "*"
wasm-bindgen = "*"
