[package]
name = "vaultura"
version = "0.1.0"
edition = "2021"
publish = false

[dependencies]
argon2 = "*"
arboard = "*"
chacha20poly1305 = "*"
chrono = "*"
clap = { version = "*", features = ["derive"] }
crossterm = "*"
directories = "*"
rand = "*"
ratatui = "*"
serde = { version = "*", features = ["derive"] }
thiserror = "*"
toml = "*"
uuid = { version = "*", features = ["v4"] }
