[package]
name = "grouping_check"
version = "0.1.0"
edition = "2021"
publish = false

[dependencies]
fnv = "1.0"
rand = "0.5"
time = "0.1"
weld = "*"
