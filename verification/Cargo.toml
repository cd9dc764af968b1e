[package]
name = "perimeter_slicer"
version = "0.1.0"
edition = "2021"
publish = false

[dependencies]
indexmap = "=2.14.2"
fidget = "=0.3.3"
nalgebra = "=0.33.3"
clap = { version = "=4.6.7", features = ["derive"] }
bincode = "=1.3.3"
