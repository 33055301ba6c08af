[package]
name = "citadel-mandate-demo"
version = "0.1.0"
edition = "2021"
publish = false

[dependencies]
sha2 = "0.10"
ed25519-dalek = "2"
base64 = "0.22"
chrono = { version = "0.4", default-features = false, features = ["std", "clock", "serde"] }
uuid = { version = "1", features = ["v4"] }
serde = { version = "1", features = ["derive"] }
serde_json = "1"
thiserror = "1"
axum = "0.7"
tokio = { version = "1", features = ["rt-multi-thread", "net", "macros"] }
wasm-bindgen = "0.2"

[dev-dependencies]
serde_json = "1"
chrono = "0.4"
