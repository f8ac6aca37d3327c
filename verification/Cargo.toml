[package]
name = "scenewriter"
version = "0.1.0"
edition = "2021"
publish = false

[dependencies]
genpdf = "=0.2.0"
