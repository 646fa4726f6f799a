[package]
name = "ruplicity"
version = "0.2.0"
edition = "2021"
publish = false

[dependencies]
byteorder = "1"
time = "0.1"
flate2 = "1"
tar = "0.4"
fnv = "1"
linked-hash-map = "0.5"
tabwriter = "1"
clap = "2"
