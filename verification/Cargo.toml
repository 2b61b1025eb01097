[package]
name = "digital_rain"
version = "0.1.0"
edition = "2021"
publish = false

[dependencies]
colorgrad = "*"
ctrlc = "*"
termion = "*"
