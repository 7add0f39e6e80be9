[package]
name = "netmon"
version = "0.1.0"
edition = "2021"
publish = false

[dependencies]
anyhow = "=1.0.104"
eframe = { version = "0.24", default-features = false, features = ["glow"] }
egui_plot = { version = "0.24", default-features = false }
env_logger = { version = "=0.11.11", default-features = false }
libc = "=0.2.191"
log = "=0.4.35"
netlink-sys = { version = "=0.8.8", default-features = false }
pcap = { version = "=2.5.0", default-features = false }
thiserror = "=1.0.69"
