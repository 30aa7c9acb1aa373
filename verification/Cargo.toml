[package]
name = "jobshell"
version = "0.1.0"
edition = "2021"
publish = false

[dependencies]
nix = "0.18"
glob = "0.3"
unicode-segmentation = "1"
unicode-width = "0.1"
termion = "1.5"
strsim = "0.10"
chrono = "0.4"
diesel = { version = "1.4", features = ["sqlite", "chrono"] }
