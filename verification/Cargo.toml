[package]
name = "lowpoly"
version = "0.1.0"
edition = "2021"
publish = false

[dependencies]
anyhow = "1"
clap = { version = "4", features = ["derive"] }
colored = "2"
image = "0.24"
rand = "0.8"
resvg = "0.29"
spinners = "4"
