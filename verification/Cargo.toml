[package]
name = "sequencer"
version = "0.1.0"
edition = "2021"
publish = false

[dependencies]
chrono = "*"
cpal = "*"
crossterm = "*"
log = "*"
simplelog = "*"
