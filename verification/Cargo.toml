[package]
name = "rustitect"
version = "0.1.0"
edition = "2021"
publish = false

[dependencies]
syn = { version = "=1.0.109", features = ["full"] }
quote = "=1.0.47"
ruml = "=0.1.0"
clap = { version = "=4.6.7", features = ["derive"] }
