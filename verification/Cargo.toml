[package]
name = "shibuichi"
version = "0.1.0"
edition = "2021"
publish = false

[dependencies]
clap = { version = "=4.6.7", features = ["derive"] }
git2 = "=0.21.0"
url = "=2.5.8"
