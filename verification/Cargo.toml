[package]
name = "chip8"
version = "0.1.0"
edition = "2021"

[dependencies]
rand = "0.7"
minifb = "0.19"
