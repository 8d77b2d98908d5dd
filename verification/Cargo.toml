[package]
name = "bls381_gadgets"
version = "0.1.0"
edition = "2021"
publish = false

[dependencies]
num-bigint = "0.4"

[dev-dependencies]
bls12_381 = "0.8"
group = "0.13"
rand = "0.8"
