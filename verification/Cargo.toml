[package]
name = "nft_ledger"
version = "0.1.0"
edition = "2021"
publish = false

[dependencies]
candid = "0.8"
crc32fast = "1"
data-encoding = "2"
ic-cdk = "0.6"
ic-cdk-macros = "0.6"
ic-certified-map = "0.3"
num-traits = "0.2"
serde = { version = "1", features = ["derive"] }
serde_bytes = "0.11"
sha2 = "0.10"
