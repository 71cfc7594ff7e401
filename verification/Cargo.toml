[package]
name = "softwarechallenge_2022"
version = "0.1.0"
edition = "2021"
publish = false

[dependencies]
chrono = "0.4"
env_logger = "0.9"
log = "0.4"
rand = "0.8"
separator = "0.4"
thincollections = "0.5"
xml-rs = "0.8"
