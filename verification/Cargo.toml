[package]
name = "koja_ir_llvm"
version = "0.1.0"
edition = "2021"
publish = false

[dependencies]
inkwell = { version = "*", features = ["llvm14-0-prefer-dynamic"] }
