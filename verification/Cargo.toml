[package]
name = "brick"
version = "0.1.0"
edition = "2021"
publish = false

[dependencies]
tar = "0.4"
walkdir = "2"
clap = { version = "3", features = ["cargo"] }
log = "0.4"
env_logger = "*"
color-eyre = "*"
thiserror = "*"
