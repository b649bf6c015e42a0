[package]
name = "stas"
version = "0.1.0"
edition = "2021"
publish = false

[dependencies]
fixed = "1"
glob = "0.3"
libc = "0.2"
neli = "0.4"
nix = "0.26"
termion = "1"
