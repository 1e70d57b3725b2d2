[package]
name = "o_shell"
version = "0.1.0"
edition = "2021"
publish = false

[dependencies]
chrono = "*"
libc = "*"
nix = { version = "*", features = ["fs", "process", "signal"] }
termios = "*"
users = "*"
