[package]
name = "tarot"
version = "0.1.0"
edition = "2021"
publish = false

[dependencies]
rand = "*"
rand_distr = "*"
clap = { version = "*", features = ["derive"] }
colored = "*"
