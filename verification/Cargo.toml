[package]
name = "psc"
version = "0.1.0"
edition = "2021"
publish = false

[dependencies]
ariadne = "0.4"
clap = { version = "4", features = ["derive"] }
cranelift = "0.108"
cranelift-jit = "0.108"
cranelift-module = "0.108"
cranelift-native = "0.108"
cranelift-object = "0.108"
