[package]
name = "image_conv"
version = "0.1.0"
edition = "2021"
publish = false

[dependencies]
photon-rs = "=0.3.3"
image = "=0.24.9"
prettytable-rs = "=0.10.0"
