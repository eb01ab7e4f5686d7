[package]
name = "rhea"
version = "0.1.0"
edition = "2021"
publish = false

[dependencies]
anyhow = "*"
clap = { version = "*", features = ["derive"] }
fslock = "*"
path_macro = "*"
piper = "*"
serde = { version = "*", features = ["derive"] }
tabled = "*"
thiserror = "*"
toml = "*"
