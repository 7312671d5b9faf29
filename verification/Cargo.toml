[package]
name = "yarm"
version = "0.1.0"
edition = "2021"
publish = false

[dependencies]
anyhow = "1"
bitcode = { version = "*", features = ["serde"] }
clap = { version = "4", features = ["derive"] }
clap_complete = "4"
console = "*"
dirs = "*"
globset = "0.4"
indicatif = "*"
inquire = "*"
serde = { version = "1", features = ["derive"] }
strsim = "*"
toml = "*"
