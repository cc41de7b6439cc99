[package]
name = "terminal_piano"
version = "0.1.0"
edition = "2021"
publish = false

[dependencies]
anyhow = "1"
midly = "0.5"
rand = "0.8"
ratatui = "0.29"
rodio = { version = "0.20", default-features = false }
serde = "1"
serde_json = "1"
