[package]
name = "mux"
version = "0.1.0"
edition = "2021"
publish = false

[dependencies]
crossterm = "0.28"
libc = "0.2"
notify = "8"
ratatui = "0.29"
serde = { version = "1", features = ["derive"] }
toml = "0.8"
