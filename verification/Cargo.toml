[package]
name = "fdt_rs"
version = "0.4.5"
edition = "2021"
publish = false

[dependencies]
endian-type-rs = "=0.1.4"
fallible-iterator = "=0.2.0"
memoffset = "*"
num-derive = "*"
num-traits = { version = "*", default-features = false }
static_assertions = "*"
