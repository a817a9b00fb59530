[package]
name = "revive_eth_rpc"
version = "0.1.0"
edition = "2021"
publish = false

[dependencies]
alloy-trie = { version = "=0.9.8", default-features = false }
anyhow = "1"
clap = { version = "4", default-features = false, features = ["derive", "env", "help", "std", "usage"] }
futures = { version = "0.3", default-features = false, features = ["std"] }
hex = "0.4"
log = "0.4"
pallet-revive = { version = "=0.12.2", default-features = false }
pallet-revive-proc-macro = { version = "=0.7.1", default-features = false }
parity-scale-codec = "3"
sp-core = { version = "=39.0.0", default-features = false }
sp-runtime = { version = "=45.0.0", default-features = false }
sp-storage = "=22.0.0"
sp-weights = { version = "=33.2.0", default-features = false }
thiserror = "2"
tokio = { version = "1", default-features = false, features = ["rt", "sync", "time"] }
