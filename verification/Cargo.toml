[package]
name = "rust_zkp"
version = "0.1.0"
edition = "2021"
publish = false

[dependencies]
ark-bn254 = "=0.3.0"
ark-ff = "=0.3.0"
ark-groth16 = "=0.3.0"
ark-relations = "=0.3.0"
ark-serialize = "=0.3.0"
ark-std = "=0.3.0"
once_cell = "=1.21.4"
candid = "=0.10.39"
ic-cdk = "=0.20.3"
ic-cdk-macros = "=0.20.3"
wasm-bindgen = "=0.2.129"
web-sys = { version = "=0.3.106", features = ["console"] }
console_error_panic_hook = "=0.1.7"

[dev-dependencies]
serde_json = "=1.0.154"
num-bigint = "=0.4.8"
