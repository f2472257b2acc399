[package]
name = "incentive"
version = "0.1.0"
edition = "2021"
publish = false

[dependencies]
cosmwasm-std = "1.1"
cw-storage-plus = "1.0"
thiserror = "1"
