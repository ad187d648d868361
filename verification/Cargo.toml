[package]
name = "aur_pkg_manager"
version = "0.1.0"
edition = "2021"
publish = false

[dependencies]
alpm = "*"
anyhow = "1"
clap = { version = "4", features = ["derive"] }
comfy-table = "7"
dirs = "5"
indicatif = "0.17"
owo-colors = "4"
reqwest = { version = "0.12", default-features = false, features = ["blocking", "json"] }
serde = { version = "1", features = ["derive"] }
srcinfo = "*"
thiserror = "1"
tracing = "0.1"
tracing-subscriber = "0.3"
