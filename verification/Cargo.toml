[package]
name = "stellar_quorum_analyzer"
version = "0.1.0"
edition = "2021"

[dependencies]
batsat = "*"
itertools = "*"
json = "*"
petgraph = "*"
stellar-strkey = "*"
stellar-xdr = { version = "*", features = ["curr", "std"] }
