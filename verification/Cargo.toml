[package]
name = "fee_miner"
version = "0.1.0"
edition = "2021"
publish = false

[dependencies]
starknet = "0.8"
starknet-providers = "0.8"
tokio = { version = "1", features = ["rt-multi-thread", "macros", "sync", "time"] }
url = "2"
dotenvy = "0.15"
structopt = "0.3"
