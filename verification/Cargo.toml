[package]
name = "phosphor"
version = "0.1.0"
edition = "2021"
publish = false

[dependencies]
dirs = "5"
nucleo-matcher = "0.3"
portable-pty = "0.8"
ratatui = "0.29"
vt100 = "0.15"
