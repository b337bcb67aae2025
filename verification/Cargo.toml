[package]
name = "rollup_codec"
version = "0.1.0"
edition = "2021"
publish = false

[dependencies]
sapling-crypto_ce = "0.1"
bigdecimal = "*"
num = "*"

[dev-dependencies]
rand = "0.4"
