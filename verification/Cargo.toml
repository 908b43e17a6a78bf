[package]
name = "subtensor-custom-rpc"
version = "0.1.0"
edition = "2021"
publish = false

[dependencies]
jsonrpsee = { version = "0.24", features = ["client-core", "macros", "server-core"] }
log = "0.4"
parity-scale-codec = "3"
sp-api = "*"
sp-blockchain = "*"
sp-runtime = "*"
