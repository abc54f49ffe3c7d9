[package]
name = "kvbench"
version = "0.1.0"
edition = "2021"
publish = false

[dependencies]
chrono = "*"
clap = { version = "*", features = ["derive"] }
hostname = "*"
num_cpus = "*"
serde = { version = "*", features = ["derive"] }
serde_json = "*"
