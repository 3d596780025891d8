[package]
name = "liquid_swap"
version = "0.1.0"
edition = "2021"
publish = false

[dependencies]
cosmwasm-std = { version = "=1.5.11", features = ["staking"] }
cw-utils = "=1.0.3"
cw2 = "=1.1.2"
cw20 = "=1.1.2"
schemars = "0.8"
serde = { version = "1.0", features = ["derive"] }
thiserror = "1.0"
