[package]
name = "sapling"
version = "0.1.0"
edition = "2021"

[dependencies]
tuikit = "0.4"
