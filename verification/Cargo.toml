[package]
name = "nicks"
version = "0.1.0"
edition = "2021"
publish = false

[dependencies]
ink_primitives = "3"
ink_metadata = "3"
ink_env = "3"
ink_storage = "3"
ink_lang = "3"
ink_prelude = "3"
parity-scale-codec = { version = "3", features = ["derive"] }
scale-info = { version = "2", features = ["derive"] }
