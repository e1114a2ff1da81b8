[package]
name = "llm_gateway"
version = "0.1.0"
edition = "2021"
publish = false

[dependencies]
reqwest = { version = "=0.12.28", default-features = false, features = ["json", "stream", "rustls-tls"] }
eventsource-stream = "=0.2.3"
futures = "=0.3.34"
async-trait = "=0.1.92"
secrecy = "=0.10.3"
serde = { version = "=1.0.229", features = ["derive"] }
sonic-rs = "=0.5.10"
log = "=0.4.34"
