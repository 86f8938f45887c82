[package]
name = "navier_tui"
version = "0.1.0"
edition = "2021"
publish = false

[dependencies]
ndarray = "0.16"
crossterm = "0.28"
ratatui = "0.29"
