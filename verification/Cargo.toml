[package]
name = "rkubectl"
version = "0.1.0"
edition = "2021"
publish = false

[dependencies]
regex = "=1.13.1"
itertools = "=0.10.5"
str-distance = "=0.1.0"
clap = { version = "=3.2.25", features = ["derive"] }
clap_generate = "=3.0.3"
log = "=0.4.35"
anyhow = "=1.0.104"
