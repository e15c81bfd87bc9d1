[package]
name = "commit_artist"
version = "0.1.0"
edition = "2021"
publish = false

[dependencies]
num_cpus = "1"
sha1 = "0.10"
seahorse = "*"
regex = "1"
