[package]
name = "smallvec_map"
version = "0.1.0"
edition = "2021"
publish = false

[dependencies]
smallvec = { version = "1", features = ["const_generics", "const_new"] }
serde = { version = "1", default-features = false, features = ["std"] }
serde_with = { version = "3", default-features = false, features = ["std"] }

[dev-dependencies]
serde_json = "1"
