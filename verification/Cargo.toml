[package]
name = "blob_store"
version = "0.1.0"
edition = "2021"
publish = false

[dependencies]
alloy-eips = "*"
alloy-primitives = "*"
alloy-rpc-types-engine = "*"
clap = { version = "*", features = ["derive"] }
eyre = "*"
futures = "*"
itertools = "*"
jsonrpsee = { version = "*", features = ["server", "macros"] }
parking_lot = "*"
pin-project = "*"
serde = { version = "*", features = ["derive"] }
serde_json = "*"
tracing = "*"
