[package]
name = "aquatic_tracker"
version = "0.1.0"
edition = "2021"
publish = false

[dependencies]
anyhow = "=1.0.104"
crossbeam-channel = "=0.5.17"
flume = "=0.11.1"
hashbrown = "=0.15.5"
hex = "=0.4.3"
hmac = "=0.12.1"
log = "=0.4.34"
mio = { version = "=0.8.11", features = ["net", "os-poll"] }
native-tls = "=0.2.18"
rand = "=0.8.8"
serde = { version = "=1.0.229", features = ["derive"] }
sha2 = "=0.10.9"
signal-hook = "=0.3.18"
toml = "0.8"
tungstenite = "=0.21.0"
