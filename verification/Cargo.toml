[package]
name = "eduroll"
version = "0.1.0"
edition = "2021"
publish = false

[dependencies]
tiny-keccak = { version = "2", features = ["keccak"] }
light-poseidon = "0.2"
ark-bn254 = "0.4"
ark-ff = "0.4"
ark-ec = "0.4"
ark-ed-on-bn254 = "0.4"
ark-std = "0.4"
ark-serialize = "0.4"
sha2 = "0.10"
rand = "0.8"
rand_chacha = "0.3"
num-bigint = "0.4"
serde = { version = "1", features = ["derive"] }
serde_json = "1"
anyhow = "1"
tracing = "0.1"
tokio = { version = "1", features = ["rt-multi-thread", "macros", "time", "net"] }
axum = { version = "0.6", default-features = false, features = ["http1", "json", "tokio"] }
reqwest = { version = "0.11", default-features = false, features = ["json"] }
sqlx = { version = "0.7", default-features = false, features = ["runtime-tokio", "postgres"] }
ethers = { version = "2", default-features = false }
