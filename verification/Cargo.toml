[package]
name = "keccak_jolt"
version = "0.1.0"
edition = "2021"
publish = false

[dependencies]
hybrid-array = "0.4"
module-lattice = "0.2"
