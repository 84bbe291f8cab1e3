[package]
name = "chobits"
version = "0.1.0"
edition = "2021"
publish = false

[dependencies]
chrono = "0.4"
crossterm = "0.28"
directories = "*"
gag = "1"
jsonrepair-rs = "*"
rand = "0.9"
ratatui = "0.29"
serde = { version = "1", features = ["derive"] }
serde_json = "1"
strip-ansi-escapes = "0.2"
tokio = { version = "1", features = ["full"] }
toml = "0.8"
ureq = "1"
vtubestudio = "*"
