[package]
name = "zako"
version = "0.1.0"
edition = "2021"
publish = false

[dependencies]
chrono = "0.4"
colored = "2"
dotenv = "0.15"
env_logger = "0.10"
lazy_static = "1"
libc = "0.2"
log = "0.4"
nix = { version = "0.27", features = ["fs", "process", "signal", "term"] }
rand = "0.8"
rustyline = "12"
shell-words = "1"
shellexpand = "3"
