[package]
name = "raytrace"
version = "0.1.0"
edition = "2021"
publish = false

[dependencies]
rand = "=0.8.8"
dirs = "=7.0.0"
noise = "=0.9.0"
cgmath = "0.18"
