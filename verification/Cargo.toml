[package]
name = "symbolic_regression"
version = "0.1.0"
edition = "2021"
publish = false

[dependencies]
rand = "0.8"
rand_distr = "0.4"
serde = { version = "1", features = ["derive"] }
serde_json = "1"
calamine = "0.19"
clap = { version = "3.2", features = ["derive"] }
