[package]
name = "ui_navigation"
version = "0.1.0"
edition = "2021"
publish = false

[dependencies]
non-empty-vec = "*"
