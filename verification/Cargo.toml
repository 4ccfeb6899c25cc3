[package]
name = "magicpak"
version = "1.4.0"
edition = "2021"
publish = false

[dependencies]
clap = { version = "4", features = ["derive", "env"] }
crt0stack = "0.1"
glob = "0.3"
goblin = "0.4"
nix = "0.26"
tempfile = "3"
tracing = "0.1"
tracing-subscriber = "0.3"
which = "4"
