[package]
name = "algo"
version = "0.1.0"
edition = "2021"
publish = false

[dependencies]
clap = "2.33"
console = "0.15"
indicatif = "0.15"
notify = "4"
serde = { version = "1", features = ["derive"] }
toml = "0.5"
