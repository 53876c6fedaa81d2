[package]
name = "semcode"
version = "0.1.0"
edition = "2021"
publish = false

[dependencies]
anstream = "0.6"
anyhow = "1"
arrow = { version = "56", default-features = false }
chrono = "0.4"
dashmap = "6"
futures = "0.3"
hex = "0.4"
indicatif = "0.17"
num_cpus = "1"
owo-colors = "4"
rayon = "1"
regex = "1"
serde = { version = "1", features = ["derive"] }
serde_json = "1"
tokio = { version = "1", features = ["full"] }
tracing = "0.1"
