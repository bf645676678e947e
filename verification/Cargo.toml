[package]
name = "block_oracle"
version = "0.1.0"
edition = "2021"
publish = false

[dependencies]
anyhow = "=1.0.104"
hex = "=0.4.3"
zigzag = "=0.1.0"
clap = { version = "=3.2.25", features = ["derive"] }
lazy_static = "=1.5.1"
reqwest = { version = "=0.11.27", default-features = false, features = ["json"] }
secp256k1 = "=0.21.3"
serde = { version = "=1.0.229", features = ["derive"] }
serde_json = "=1.0.154"
thiserror = "=1.0.69"
tokio = { version = "=1.54.1", features = ["macros", "rt-multi-thread", "signal", "time"] }
toml = "=0.5.11"
tracing = "=0.1.44"
tracing-subscriber = { version = "=0.3.23", features = ["env-filter"] }
url = { version = "=2.5.8", features = ["serde"] }
web3 = { version = "=0.18.0", default-features = false, features = ["http", "signing"] }

[dev-dependencies]
tiny-keccak = { version = "=2.0.2", features = ["keccak"] }
