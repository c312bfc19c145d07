[package]
name = "netgen"
version = "0.1.0"
edition = "2021"
publish = false

[dependencies]
yaml-rust2 = "*"
ipnetwork = "*"
rand = "0.8"
nix = { version = "*", features = ["sched", "mount", "signal", "net", "process", "fs", "user"] }
rtnetlink = "*"
tokio = { version = "*", features = ["rt", "rt-multi-thread", "macros", "time"] }
netlink-packet-route = "*"
sysinfo = "*"
clap = "*"
