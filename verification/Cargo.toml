[package]
name = "aptos_lc"
version = "0.1.0"
edition = "2021"
publish = false

[dependencies]
tiny-keccak = { version = "=2.0.2", features = ["sha3"] }
blst = { version = "=0.3.17", features = ["no-threads"] }
serde = { version = "=1.0.229", features = ["derive"] }
serde_json = "=1.0.154"
clap = { version = "=4.6.7", features = ["derive"] }
getset = "=0.1.7"
sp1-zkvm = { version = "=3.4.0", default-features = false, features = ["lib"] }

[dev-dependencies]
bcs = "=0.1.6"
