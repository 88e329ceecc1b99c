[package]
name = "wireguard_router"
version = "0.1.0"
edition = "2021"
publish = false

[dependencies]
base64 = "*"
blake2s_simd = "*"
config = "*"
notify = "*"
serde = { version = "*", features = ["derive"] }
tokio = { version = "*", features = ["macros", "net", "rt-multi-thread", "sync"] }
tracing = "*"
tracing-subscriber = "*"
