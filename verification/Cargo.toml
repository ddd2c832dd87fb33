[package]
name = "multisig_bls"
version = "0.1.0"
edition = "2021"
publish = false

[dependencies]
blsful = "=2.5.7"
multibase = "=0.9.3"
thiserror = "=1.0.69"
