[package]
name = "bip300_enforcer"
version = "0.1.0"
edition = "2021"
publish = false

[dependencies]
bitcoin = "0.32"
fatality = "0.1"
futures = "0.3"
hex = "0.4"
miette = "7"
redb = "2"
thiserror = "2"
tokio = { version = "1", features = ["rt", "time"] }
tracing = "0.1"
