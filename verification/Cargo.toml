[package]
name = "allayindexer"
version = "0.2.0"
edition = "2021"
publish = false

[dependencies]
regex = "=1.13.1"
chrono = "=0.4.45"
instant-segment = "=0.11.1"
smartstring = "=1.0.1"
serde = { version = "=1.0.229", features = ["derive"] }
serde_json = "=1.0.154"
serde_yaml = "=0.9.34"
postcard = { version = "=1.1.3", features = ["alloc"] }
flate2 = "=1.1.10"
jsonwebtoken = "=9.3.1"
ureq = { version = "=3.5.1", features = ["json"] }
tracing = "=0.1.44"
tracing-subscriber = { version = "=0.3.23", features = ["env-filter", "fmt"] }
