[package]
name = "raytrace"
version = "0.1.0"
edition = "2021"

[dependencies]
image = "0.24"
rand = "0.8"
