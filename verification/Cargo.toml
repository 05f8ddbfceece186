[package]
name = "ansi_to_tui"
version = "0.1.0"
edition = "2021"
publish = false

[dependencies]
simdutf8 = "*"
tui = { version = "*", default-features = false }
