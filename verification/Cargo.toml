[package]
name = "ronix"
version = "0.1.0"
edition = "2021"
publish = false

[dependencies]
serde = "1"
ron = "*"
thiserror = "*"
clap = { version = "4", features = ["derive"] }
