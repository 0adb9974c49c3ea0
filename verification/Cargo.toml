[package]
name = "subscrypt"
version = "0.1.0"
edition = "2021"
publish = false

[dependencies]
ink_env = { version = "=3.0.0-rc4", features = ["std"] }
ink_storage = { version = "=3.0.0-rc4", features = ["std"] }
ink_storage_derive = "=3.0.0-rc4"
ink_primitives = { version = "=3.0.0-rc4", features = ["std"] }
ink_prelude = { version = "=3.0.0-rc4", features = ["std"] }
ink_metadata = { version = "=3.0.0-rc4", features = ["std"] }
parity-scale-codec = { version = "2", features = ["derive"] }
scale-info = { version = "0.6", features = ["derive"] }
