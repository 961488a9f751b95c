[package]
name = "cianity"
version = "0.1.0"
edition = "2021"
publish = false

[dependencies]
anyhow = "1"
ariadne = "*"
clap = { version = "4", features = ["derive"] }
tokio = { version = "1", features = ["rt-multi-thread", "io-std", "macros"] }
tower-lsp-server = "*"
