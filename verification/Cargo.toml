[package]
name = "f2f_converter"
version = "0.1.0"
edition = "2021"
publish = false

[dependencies]
chrono = "*"
hex = "*"
infer = "*"
mime_guess = "*"
sha2 = "*"
tempfile = "*"
uuid = { version = "*", features = ["v4"] }
