[package]
name = "nimiq_vanity"
version = "0.1.0"
edition = "2021"
publish = false

[dependencies]
nimiq-mnemonic = "*"
clap = "2"
rand = "*"
num_cpus = "*"
