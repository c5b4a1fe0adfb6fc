[package]
name = "psypher"
version = "0.1.0"
edition = "2021"
publish = false

[dependencies]
hashbrown = "0.15"
slotmap = "1"
serde = { version = "1", features = ["derive"] }
serde_json = "1"
crossterm = "0.28"
alacritty_terminal = "0.25"
egui = "0.33"
tracing = "0.1"
vek = "0.17"
rand = "0.9"
