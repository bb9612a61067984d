[package]
name = "cap9_kernel"
version = "0.1.0"
edition = "2021"
publish = false

[dependencies]
pwasm-std = "*"
pwasm-abi = "*"
pwasm-abi-derive = "*"
pwasm-ethereum = "*"
primitive-types = "*"
parity-scale-codec = "*"
hex = "0.4"
log = "0.4"
env_logger = "*"
wabt = "*"
