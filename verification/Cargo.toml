[package]
name = "grid_messages"
version = "0.1.0"
edition = "2021"

[dependencies]
ws = "0.9"
