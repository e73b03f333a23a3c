[package]
name = "mizzle"
version = "0.1.0"
edition = "2021"
publish = false

[dependencies]
colored = "=2.2.0"
parity-wasm = "=0.42.2"
wasmer = "=6.1.0"
wasmer-compiler-cranelift = "=6.1.0"
