[package]
name = "teral"
version = "0.1.3"
edition = "2021"
publish = false

[dependencies]
serde = { version = "1", features = ["derive"] }
toml = "*"
gtk4 = { version = "*", features = ["v4_12"] }
vte4 = "*"
