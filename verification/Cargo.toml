[package]
name = "uffd_handler"
version = "0.1.0"
edition = "2021"
publish = false

[dependencies]
crossbeam-channel = "0.5"
nix = "0.25"
rand = "0.8"
tracing = "0.1"
tracing-subscriber = "0.3"
userfaultfd = { version = "0.5", features = ["linux5_7"] }
