[package]
name = "shotgun"
version = "0.1.0"
edition = "2021"
publish = false

[dependencies]
getopts = "*"
image = "*"
x11rb = { version = "*", features = ["randr"] }
