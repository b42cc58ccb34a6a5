[package]
name = "yolo_train"
version = "0.1.0"
edition = "2021"
publish = false

[dependencies]
candle-core = "*"
candle-nn = "*"
image = { version = "*", default-features = false, features = ["png", "jpeg"] }
