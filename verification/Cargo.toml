[package]
name = "helix_term"
version = "0.1.0"
edition = "2021"
publish = false

[dependencies]
anyhow = "1"
clap = { version = "=3.0.0-beta.2", default-features = false, features = ["std"] }
crossterm = { version = "0.18", features = ["event-stream"] }
smol = "1"
tui = { version = "0.13", default-features = false, features = ["crossterm"] }
