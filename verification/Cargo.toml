[package]
name = "eki"
version = "0.1.0"
edition = "2021"
publish = false

[dependencies]
anchor-lang = { version = "=0.31.2", features = ["init-if-needed"] }
anchor-spl = "=0.31.2"
bytemuck = { version = "=1.25.2", features = ["derive", "min_const_generics"] }
sha2 = "=0.10.9"
