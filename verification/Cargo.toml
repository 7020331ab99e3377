[package]
name = "servex"
version = "0.1.0"
edition = "2021"
publish = false

[dependencies]
proc-macro2 = "=1.0.107"
syn = { version = "=2.0.119", features = ["full"] }
async-trait = "=0.1.92"
unicode-ident = "=1.0.27"
