[package]
name = "statc"
version = "0.1.0"
edition = "2021"
publish = false

[dependencies]
clap = { version = "=4.6.7", features = ["derive"] }
meval = "=0.2.0"
statrs = "=0.16.1"
termion = "=4.0.6"
