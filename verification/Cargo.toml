[package]
name = "airyc"
version = "0.1.0"
edition = "2021"
publish = false

[dependencies]
rowan = "0.15"
logos = "0.14"
text-size = "1"
thunderdome = "0.6"
thiserror = "2"
miette = "7"
snailquote = "0.3"
dashmap = "6"
rayon = "1"
parking_lot = "0.12"
