[package]
name = "pickpicpack"
version = "0.1.0"
edition = "2021"
publish = false

[dependencies]
chrono = "*"
crunch = "*"
directories = "*"
fuzzy_fraction = "*"
image = { version = "*", default-features = false, features = ["png", "jpeg"] }
rand = "*"
zip = { version = "*", default-features = false }
