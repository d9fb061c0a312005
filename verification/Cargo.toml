[package]
name = "aleo-process"
version = "0.1.0"
edition = "2021"
publish = false

[dependencies]
indexmap = "1.9"
parking_lot = "0.12"
