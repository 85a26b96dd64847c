[package]
name = "sound_registry"
version = "0.1.0"
edition = "2021"
publish = false

[dependencies]
alto = "3"
arma-rs = "*"
lazy_static = "1"
rand = "0.7"
