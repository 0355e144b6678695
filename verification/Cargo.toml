[package]
name = "rebound"
version = "0.1.0"
edition = "2021"
publish = false

[dependencies]
rand = "0.8"
rand_isaac = "0.3"
clap = "2.34"
nalgebra = "0.32"
