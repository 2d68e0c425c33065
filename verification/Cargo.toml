[package]
name = "abi_fuzz"
version = "0.1.0"
edition = "2021"
publish = false

[dependencies]
proptest = "1"

[dev-dependencies]
ethers-core = "2"
