[package]
name = "plic"
version = "0.1.0"
edition = "2021"
publish = false

[dependencies]
volatile-register = "=0.2.2"
riscv = "=0.10.1"
