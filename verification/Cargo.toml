[package]
name = "skate"
version = "0.1.0"
edition = "2021"
publish = false

[dependencies]
ark-bn254 = "=0.4.0"
ark-crypto-primitives = { version = "=0.4.0", features = ["snark", "crh", "sponge"] }
ark-ec = "=0.4.2"
ark-ff = "=0.4.2"
ark-groth16 = "=0.4.0"
ark-serialize = "=0.4.2"
ark-std = "=0.4.0"
axum = "=0.7.9"
num-bigint = "=0.4.8"
reqwest = { version = "=0.12.28", default-features = false }
rosrust = "=0.9.12"
rosrust_msg = "=0.1.8"
serde = { version = "=1.0.229", features = ["derive"] }
serde_json = "=1.0.154"
tokio = { version = "=1.54.1", features = ["full"] }
toml = "=0.8.23"
tracing-subscriber = "=0.3.23"

[dev-dependencies]
ark-relations = "=0.4.0"
