[package]
name = "terminalsort"
version = "0.1.0"
edition = "2021"
publish = false

[dependencies]
x11rb = { version = "0.13", features = ["randr"] }
clap = { version = "4", features = ["derive"] }
serde = { version = "1", features = ["derive"] }
serde_json = "1"
dirs = "6"
anyhow = "1"
