[package]
name = "local_search"
version = "0.1.0"
edition = "2021"
publish = false

[dependencies]
rand = "0.8"
rand_chacha = "0.3"
rand_distr = "0.4"
ordered-float = { version = "3", features = ["serde"] }
blake2 = "0.10"
chrono = { version = "0.4", features = ["serde"] }
serde = { version = "1", features = ["derive"] }
itertools = "0.10"
thiserror = "1"
wasm-bindgen = { version = "0.2", features = ["serde-serialize"] }
