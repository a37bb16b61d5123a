[package]
name = "brickmesh"
version = "0.1.0"
edition = "2021"
publish = false

[dependencies]
brickadia = "=0.1.32"
rayon = "1"
dirs = "5"
