[package]
name = "riscv_vector"
version = "0.1.0"
edition = "2021"
publish = false

[dependencies]
ab-riscv-primitives = "0.2.0"
