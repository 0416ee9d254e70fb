[package]
name = "rs48_lib"
version = "0.1.0"
edition = "2021"
publish = false

[dependencies]
rand = "0.8"
rayon = "1"
termion = "*"
clap = { version = "4", features = ["derive"] }
