[package]
name = "ddust"
version = "0.1.0"
edition = "2021"
publish = false

[dependencies]
bdk_wallet = "=2.4.0"
bdk_bitcoind_rpc = "=0.22.1"
bdk_redb = "=0.1.1"
clap = { version = "=4.6.7", features = ["derive", "env"] }
serde_json = "=1.0.154"
tracing = "=0.1.44"
tracing-subscriber = "=0.3.23"
