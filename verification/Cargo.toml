[package]
name = "secq256k1"
version = "0.1.0"
edition = "2021"
publish = false

[dependencies]
ff = { version = "0.13", default-features = false }
group = { version = "0.13", default-features = false }
rand_core = { version = "0.6", features = ["getrandom"] }
subtle = "2.4"

[dev-dependencies]
rand = "0.8"
