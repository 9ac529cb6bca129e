[package]
name = "pathtracer"
version = "0.1.0"
edition = "2021"
publish = false

[dependencies]
rand = "0.8"
obj = "0.10"
png = "0.16"
clap = "2"
rayon = "1"
