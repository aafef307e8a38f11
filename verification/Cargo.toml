[package]
name = "arena_physics"
version = "0.1.0"
edition = "2021"
publish = false

[dependencies]
rand = "*"
