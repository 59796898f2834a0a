[package]
name = "hist"
version = "0.1.0"
edition = "2021"
publish = false

[dependencies]
csv = "1"
clap = { version = "4", features = ["derive"] }
plotters = "0.3"
textplots = { version = "*", default-features = false }
