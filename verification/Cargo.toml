[package]
name = "docu"
version = "0.1.0"
edition = "2021"
publish = false

[dependencies]
clap = { version = "*", features = ["derive"] }
dialoguer = "*"
dirs = "*"
nu-ansi-term = "*"
once_cell = "*"
rusqlite = { version = "*", features = ["bundled"] }
serde = { version = "*", features = ["derive"] }
syntect = "*"
thiserror = "*"
toml = "*"
