[package]
name = "backup_vault"
version = "0.1.0"
edition = "2021"
publish = false

[dependencies]
bcrypt = "*"
blake3 = "*"
clap = { version = "*", features = ["derive"] }
sodiumoxide = "*"
uuid = { version = "*", features = ["v4"] }
