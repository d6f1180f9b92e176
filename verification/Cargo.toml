[package]
name = "polyjuice"
version = "0.1.0"
edition = "2021"
publish = false

[dependencies]
users = "*"
pam-client = "*"
clap = { version = "*", features = ["derive"] }
