[package]
name = "lfv"
version = "0.1.0"
edition = "2021"
publish = false

[dependencies]
anyhow = "1"
arboard = { version = "3", default-features = false }
clap = { version = "4", features = ["derive"] }
crossterm = "0.28"
eframe = { version = "0.29", default-features = false, features = ["default_fonts", "wgpu", "x11"] }
memmap2 = "0.9"
