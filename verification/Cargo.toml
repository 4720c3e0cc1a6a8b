[package]
name = "voronoi_fps"
version = "0.1.0"
edition = "2021"
publish = false

[dependencies]
clap = "*"
ndarray = "*"
ndarray-npy = "*"
