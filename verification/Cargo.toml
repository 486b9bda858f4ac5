[package]
name = "tia_sync"
version = "0.1.0"
edition = "2021"
publish = false

[dependencies]
nmt-rs = "=0.2.5"
celestia-rpc = "=1.3.0"
celestia-types = "=1.3.0"
tendermint-proto = "=0.40.4"
rocksdb = "*"
tokio = { version = "*", features = ["rt-multi-thread", "macros"] }
dirs = "*"
bincode = "=1.3.3"
serde = { version = "*", features = ["derive"] }
