[package]
name = "mdbx_txn"
version = "0.1.0"
edition = "2021"
publish = false

[dependencies]
indexmap = "*"
parking_lot = "*"
