[package]
name = "cdis_assemble"
version = "0.1.0"
edition = "2021"
publish = false

[dependencies]
bitvec = "1.0.1"
nom = "7.1.3"
