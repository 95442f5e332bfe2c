[package]
name = "diald"
version = "0.1.0"
edition = "2021"
publish = false

[dependencies]
evdev = "*"
libc = "*"
rumqttc = "*"
