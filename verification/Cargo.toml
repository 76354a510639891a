[package]
name = "lethe"
version = "0.1.0"
edition = "2021"
publish = false

[dependencies]
anyhow = "1"
clap = "2"
console = "0.15"
indicatif = "0.15"
libc = "0.2"
prettytable-rs = "0.8"
rand = "0.7"
streaming-iterator = "0.1"
sysfs-class = "0.1"
thiserror = "1"

[dev-dependencies]
flate2 = "1"
