[package]
name = "fee_config"
version = "0.1.0"
edition = "2021"
publish = false

[dependencies]
cosmwasm-std = "1"
cosmwasm-schema = "1"
cw-asset = "3"
cw-storage-plus = "1"
cw-ownable = "0.5"
serde = "1"
