[package]
name = "inkmlrs"
version = "0.1.0"
edition = "2021"
publish = false

[dependencies]
xml-rs = "0.8"
thiserror = "1"
structopt = "0.3"
ggez = "0.7"
