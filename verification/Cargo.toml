[package]
name = "ana"
version = "0.1.0"
edition = "2021"
publish = false

[dependencies]
num_cpus = "1"
rand = "0.8"
clap = "2"
lazy_static = "1"
libc = "0.2"
nix = "0.23"
serde = "1"
serde_derive = "1"
serde_json = "1"
tokio = { version = "1", features = ["fs", "io-util", "rt", "sync", "macros"] }
unshare = "0.7"
log = "0.4"
