[package]
name = "ethereum_networks"
version = "0.1.0"
edition = "2021"
publish = false

[dependencies]
rand = "0.8"
futures = "0.1"
ethabi = "*"
web3 = { version = "*", default-features = false }
