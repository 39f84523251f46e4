[package]
name = "rustodo"
version = "0.1.0"
edition = "2021"
publish = false

[dependencies]
anyhow = "1"
chrono = { version = "0.4", features = ["serde"] }
chrono-english = "*"
clap = { version = "4", features = ["derive"] }
colored = "*"
directories = "*"
fs4 = "*"
regex = "1"
serde = { version = "1", features = ["derive"] }
serde_json = "1"
strsim = "*"
thiserror = "*"
toml = "*"
uuid = { version = "1", features = ["v4", "serde"] }
