[package]
name = "sshp4ru"
version = "0.1.0"
edition = "2021"
publish = false

[dependencies]
twox-hash = "*"
rand = "0.8"
nix = { version = "0.29", features = ["sched", "signal", "process", "fs", "event", "poll"] }
epoll = "4"
libc = "0.2"
chrono = "0.4"
