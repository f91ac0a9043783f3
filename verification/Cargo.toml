[package]
name = "oxideye"
version = "0.1.0"
edition = "2021"
publish = false

[dependencies]
clap = { version = "*", features = ["derive"] }
daemonize = "*"
log = "*"
nix = { version = "*", features = ["signal"] }
rdev = "*"
serde = { version = "*", features = ["derive"] }
toml = "*"
