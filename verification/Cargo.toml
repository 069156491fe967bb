[package]
name = "frida_hotstuff"
version = "0.1.0"
edition = "2021"
publish = false

[dependencies]
bytes = "1"
hotstuff_rs = "0.4"
dashmap = "6"
csv = "1"
serde = { version = "1", features = ["derive"] }
serde_yml = "0.0.13"
tracing = "0.1"
tracing-appender = "0.2"
tracing-subscriber = "0.3"
rand_core = { version = "0.6", features = ["getrandom"] }
ed25519-dalek = "2"
winter-fri = "0.13"
winter-crypto = "0.13"
winter-math = "0.13"
winter-utils = "0.13"
