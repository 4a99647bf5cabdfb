[package]
name = "inner_product_proof"
version = "0.1.0"
edition = "2021"
publish = false

[dependencies]
mpc-stark = "=0.1.0"
merlin = "=3.0.0"
rayon = "=1.12.0"

[dev-dependencies]
rand = "=0.8.8"
