[package]
name = "hypernode"
version = "0.1.0"
edition = "2021"
publish = false

[dependencies]
alloy = { version = "=0.3.6", default-features = false, features = ["std", "contract", "network", "provider-http", "provider-ws", "reqwest-rustls-tls", "rpc-types", "signer-local", "sol-types"] }
bitcoin = "=0.32.102"
chrono = { version = "0.4", default-features = false, features = ["now"] }
clap = { version = "4", default-features = false, features = ["std", "help", "usage", "derive", "env"] }
crypto-bigint = "0.5"
dotenv = "0.15"
env_logger = { version = "0.11", default-features = false }
futures = "0.3"
hex = "=0.4.3"
log = "0.4"
rand = "0.8"
reqwest = { version = "0.12", default-features = false, features = ["json"] }
ruint = { version = "=1.12.3", default-features = false }
serde_json = "=1.0.154"
serde_with = { version = "=3.9.0", default-features = false }
tokio = { version = "1", features = ["macros", "rt-multi-thread", "sync", "time"] }
