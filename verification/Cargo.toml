[package]
name = "real-time"
version = "0.7.0"
edition = "2021"
publish = false

[dependencies]
crossbeam-utils = "=0.8.23"
