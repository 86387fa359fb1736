[package]
name = "contract_usage"
version = "0.1.0"
edition = "2021"
publish = false

[dependencies]
hex = "=0.4.3"
prost = "=0.11.9"
substreams = "=0.5.22"
substreams-ethereum = "=0.9.13"
