[package]
name = "er_bench"
version = "0.1.0"
edition = "2021"
publish = false

[dependencies]
anyhow = "=1.0.104"
axum = { version = "0.7", default-features = false, features = ["http1", "json", "tokio"] }
base64 = "=0.22.1"
bincode = "=1.3.3"
clap = { version = "=4.6.7", default-features = false, features = ["derive", "std", "help", "usage", "error-context"] }
ctrlc = "=3.5.2"
futures = "=0.3.34"
magicblock-delegation-program-api = { version = "=4.0.1", default-features = false }
reqwest = { version = "0.12", default-features = false, features = ["json"] }
serde = { version = "=1.0.229", features = ["derive"] }
serde_json = "=1.0.154"
solana-pubkey = "=3.0.0"
solana-sdk = "=3.0.0"
solana-system-interface = { version = "=2.0.0", features = ["bincode"] }
spl-associated-token-account-interface = "=2.0.0"
spl-token = { version = "=9.0.0", features = ["no-entrypoint"] }
tokio = { version = "1", features = ["rt-multi-thread", "macros", "time", "net", "sync", "fs"] }
toml = "=0.8.23"
