[package]
name = "smart_ir"
version = "0.1.0"
edition = "2021"
publish = false

[dependencies]
nano-leb128 = "=0.1.0"
num-bigint = "=0.4.8"
num-traits = "=0.2.19"
parity-wasm = "=0.45.0"
tempfile = "=3.27.0"
home = "=0.5.12"
rand = "0.7"
serde = { version = "=1.0.229", features = ["derive"] }
serde_json = "=1.0.154"
regex = "=1.13.1"
indexmap = "=2.14.2"
byteorder = "=1.5.0"
rust-crypto = "=0.2.36"
rsa = "=0.3.0"
wasmi = "=0.9.1"
