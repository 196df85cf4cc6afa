[package]
name = "roboplc-io-ads"
version = "0.1.0"
edition = "2021"
publish = false

[dependencies]
bma-ts = "*"
byteorder = "1"
roboplc = "*"
rtsc = "*"
tracing = "0.1"
zerocopy = "0.7"
