[package]
name = "oxirush-ngap"
version = "0.3.0"
edition = "2021"
publish = false

[dependencies]
bitvec = "1"
asn1-codecs = "*"
asn1-compiler = "*"
anyhow = "1"

[dev-dependencies]
regex = "1"
