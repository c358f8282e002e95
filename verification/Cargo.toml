[package]
name = "segment_core"
version = "0.1.0"
edition = "2021"
publish = false

[dependencies]
memmap = "0.7"
crossbeam-channel = "0.5"
crc = "3"
