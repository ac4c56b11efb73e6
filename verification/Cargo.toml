[package]
name = "bugglers"
version = "1.0.0"
edition = "2021"
publish = false

[dependencies]
hound = "3"
image = { version = "0.25", default-features = false, features = ["png"] }
num = "0.4"
rustfft = "6"
