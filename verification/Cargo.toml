[package]
name = "gemm"
version = "0.1.0"
edition = "2021"
publish = false

[dependencies]
gemm-f16 = "*"
gemm-f64 = "*"
gemm-c32 = "*"
gemm-c64 = "*"
half = "*"
num-complex = "*"
num-traits = "*"
