[package]
name = "nextsv"
version = "0.8.0"
edition = "2021"
publish = false

[dependencies]
clap = { version = "4", features = ["derive"] }
clap-verbosity-flag = "2"
env_logger = "0.10"
git-conventional = "0.12"
git2 = { version = "0.18", default-features = false }
log = "0.4"
proc-exit = "2"
thiserror = "1"
