[package]
name = "fountain_operators"
version = "1.0.0"
edition = "2021"
publish = false

[dependencies]
fountain_engine = "1.3"
serde = { version = "1", features = ["derive"] }
serde_json = "1"
rand = "0.8"
cpufeatures = "0.2"

[dev-dependencies]
fountain_utility = "1.3"
