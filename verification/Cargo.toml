[package]
name = "termite_core"
version = "0.1.0"
edition = "2021"
publish = false

[dependencies]
unicode-width = "0.2"
font8x8 = "0.3"
vte = "0.15"
base64 = "0.22"
crossterm = "0.28"
nix = { version = "0.29", features = ["term", "process", "signal", "fs", "ioctl"] }
