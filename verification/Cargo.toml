[package]
name = "irium_poawx"
version = "0.1.0"
edition = "2021"
publish = false

[dependencies]
sha2 = "0.10"
hex = "0.4"
bs58 = "0.5"
serde = { version = "1", features = ["derive"] }
serde_json = "1"
