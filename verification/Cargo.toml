[package]
name = "soledit"
version = "0.1.0"
edition = "2021"
publish = false

[dependencies]
amf = "1"
byteorder = "1"
custom_debug = "*"
egui = "*"
egui-sfml = "*"
sfml = "*"
