[package]
name = "plutus"
version = "0.1.0"
edition = "2021"
publish = false

[dependencies]
alloy-primitives = "*"
alloy-sol-types = "*"
uniswap_v3_math = "*"
hashbrown = "*"
tokio = { version = "*", features = ["rt-multi-thread", "macros", "sync"] }
anyhow = "*"
