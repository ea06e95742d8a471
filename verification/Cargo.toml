[package]
name = "graphscope"
version = "0.1.0"
edition = "2021"
publish = false

[dependencies]
lbug = "*"
serde = { version = "1", features = ["derive"] }
walkdir = "2"
