[package]
name = "raycasting"
version = "0.1.0"
edition = "2021"
publish = false

[dependencies]
image = { version = "*", default-features = false, features = ["png"] }
minifb = "*"
rodio = "*"
gilrs = "*"
