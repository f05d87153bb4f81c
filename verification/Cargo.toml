[package]
name = "path_to_regexp"
version = "0.1.0"
edition = "2021"
publish = false

[dependencies]
fancy-regex = "*"
regex = "*"
log = "*"
pretty_env_logger = "*"
