[package]
name = "tunes"
version = "0.1.0"
edition = "2021"
publish = false

[dependencies]
anyhow = "1"
chrono = "0.4"
crossterm = "0.28"
lofty = "0.22"
ratatui = "0.29"
rodio = "0.21"
