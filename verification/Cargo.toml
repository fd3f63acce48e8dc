[package]
name = "goodix_info"
version = "0.1.0"
edition = "2021"
publish = false

[dependencies]
aes = "0.9"
cbc = { version = "0.2", features = ["alloc"] }
getrandom = "0.3"
rusb = "0.9"
