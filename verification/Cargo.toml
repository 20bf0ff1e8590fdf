[package]
name = "ratwarren"
version = "0.1.0"
edition = "2021"
publish = false

[dependencies]
async-trait = "*"
crossterm = { version = "*", features = ["event-stream"] }
directories = "*"
futures-util = "*"
keyring = "*"
ratatui = "*"
serde = { version = "1", features = ["derive"] }
sqlparser = "0.62.0"
thiserror = "2"
tokio = { version = "1", features = ["full"] }
tokio-postgres = "0.7"
toml = "*"

[dev-dependencies]
tempfile = "3"
