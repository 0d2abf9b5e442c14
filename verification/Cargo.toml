[package]
name = "redorm"
version = "0.1.0"
edition = "2021"
publish = false

[dependencies]
redis = { version = "0.23", features = ["aio", "tokio-comp"] }
syn = { version = "1", features = ["full", "extra-traits"] }
quote = "1"
proc-macro2 = "1"
bae = "0.1"
async-trait = "0.1"
futures-util = "0.3"
