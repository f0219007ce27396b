[package]
name = "lnpbp_bip32"
version = "0.1.0"
edition = "2021"
publish = false

[dependencies]
bitcoin = "0.26"
slip132 = "0.3"
miniscript = "5"
strict_encoding = "1"
