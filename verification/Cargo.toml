[package]
name = "crypto_flow_blitz"
version = "0.1.0"
edition = "2021"
publish = false
