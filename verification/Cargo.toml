[package]
name = "netstack_sim"
version = "0.1.0"
edition = "2021"
publish = false

[dependencies]
rand = { version = "0.8", features = ["small_rng"] }
arrayvec = "0.7"
indicatif = "0.17"
rustc-serialize = "0.3"
log = "0.4"
