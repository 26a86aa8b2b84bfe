[package]
name = "term-structure-evacuation-kit"
version = "0.1.0"
edition = "2021"
publish = false

[dependencies]
ark-bn254 = "0.4"
ark-ff = "0.4"
num-bigint = "0.4"
num-traits = "0.2"
clap = "2"
serde = { version = "1", features = ["derive"] }
serde_json = "1"
tokio = { version = "1", features = ["rt-multi-thread", "sync"] }
web3 = { version = "0.19", default-features = false, features = ["http"] }
ethabi = "18"
hex = "0.4"
sha3 = "0.10"
