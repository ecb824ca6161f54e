[package]
name = "lingine"
version = "0.1.0"
edition = "2021"
publish = false

[dependencies]
arrayvec = "0.7"
anyhow = "1"
clap = { version = "4", features = ["derive"] }
