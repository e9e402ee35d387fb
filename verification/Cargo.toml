[package]
name = "decryptor_s2"
version = "0.1.0"
edition = "2021"
publish = false

[dependencies]
compression = "0.1"
crc32fast = "1"
encoding_rs = "0.8"
minstd = "*"
simple-eyre = "0.3"
walkdir = "2"
