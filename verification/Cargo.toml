[package]
name = "xdp_fw"
version = "0.1.0"
edition = "2021"
publish = false

[dependencies]
chrono = "0.4"
network-types = "0.0.8"
aya-ebpf = "0.1"
aya = "0.13"
aya-log = "0.2"
anyhow = "1"
clap = { version = "4", features = ["derive"] }
crossterm = "0.28"
ratatui = "0.29"
tokio = { version = "1", features = ["macros", "rt-multi-thread", "time", "sync", "signal", "net"] }
env_logger = "0.11"
log = "0.4"
libc = "0.2"
