[package]
name = "decompiler"
version = "0.1.0"
edition = "2021"
publish = false

[dependencies]
iced-x86 = "=1.22.0"
petgraph = "=0.6.5"
regex = "=1.13.1"
serde = { version = "=1.0.229", features = ["derive"] }
serde_json = "1"
thiserror = "=1.0.69"
