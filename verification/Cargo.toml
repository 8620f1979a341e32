[package]
name = "faer_core"
version = "0.1.0"
edition = "2021"
publish = false

[dependencies]
aligned-vec = "0.5"
dyn-stack = "0.8"
gemm = "0.12"
num-complex = "0.4"
num-traits = "0.2"
rayon = "1"
reborrow = "0.5"
