[package]
name = "coinswap_wallet"
version = "0.1.0"
edition = "2021"
publish = false

[dependencies]
bdk_bitcoind_rpc = "=0.22.1"
bdk_chain = { version = "=0.23.4", features = ["serde"] }
bdk_coin_select = "=0.4.1"
bip39 = { version = "=2.2.2", features = ["rand"] }
bitcoin = { version = "=0.32.102", features = ["rand-std", "serde"] }
bitcoind = "0.36"
log = "0.4"
serde = { version = "1", features = ["derive"] }
serde_cbor = "0.11"
serde_json = "1"
