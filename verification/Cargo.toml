[package]
name = "git_annex_remote_tape"
version = "0.1.0"
edition = "2021"
publish = false

[dependencies]
bitflags = "*"
clap = { version = "*", features = ["derive"] }
flagset = "*"
libc = "*"
nix = { version = "=0.29.0", features = ["fs", "ioctl"] }
serde = { version = "*", features = ["derive"] }
uuid = "*"
