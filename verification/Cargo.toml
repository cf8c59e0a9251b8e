[package]
name = "debank_tracing"
version = "0.1.0"
edition = "2021"
publish = false

[dependencies]
ethereum-types = { version = "=0.15.1", features = ["rlp", "codec"] }
rlp = "=0.6.1"
sha3 = "=0.10.9"
md-5 = "=0.10.6"
hex = "=0.4.3"
parity-scale-codec = "=3.7.5"
sp-core = "=36.1.0"
evm = "=0.43.4"
serde = { version = "=1.0.229", features = ["derive"] }
serde_json = "1"
jsonrpsee = { version = "=0.24.11", features = ["server-core", "jsonrpsee-types"] }
tokio = { version = "=1.54.1", features = ["rt", "sync", "time"] }
futures = "=0.3.34"
async-trait = "=0.1.92"
log = "=0.4.35"
substrate-prometheus-endpoint = "0.17"
tracing = "=0.1.44"

[dev-dependencies]
alloy-primitives = { version = "=0.8.26", default-features = false, features = ["std", "rlp"] }
alloy-rlp = "=0.3.17"
