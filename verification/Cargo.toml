[package]
name = "derisk_stellar_events"
version = "0.1.0"
edition = "2021"
publish = false

[dependencies]
stellar-xdr = { version = "=21.2.0", features = ["next", "serde", "std"] }
serde = { version = "=1.0.229", features = ["derive"] }
serde_json = "=1.0.154"
ingest = "=0.1.1"
diesel = { version = "=2.3.14", features = ["postgres", "serde_json"] }
reqwest = { version = "=0.12.28", default-features = false, features = ["blocking", "json", "rustls-tls"] }
