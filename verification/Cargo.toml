[package]
name = "burn_metal"
version = "0.1.0"
edition = "2021"
publish = false

[dependencies]
burn-std = { version = "0.21", default-features = false, features = ["std"] }
cubecl = { version = "0.10", default-features = false, features = ["std"] }
cubek = { version = "0.2", default-features = false, features = ["std", "quantization"] }
