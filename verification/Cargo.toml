[package]
name = "stellar_quorum_analyzer"
version = "0.1.0"
edition = "2021"
publish = false

[dependencies]
batsat = "=0.6.0"
json = "=0.12.4"
stellar-strkey = "=0.0.18"
stellar-xdr = "=28.0.1"
