[package]
name = "execmon"
version = "0.1.0"
edition = "2021"
publish = false

[dependencies]
sysinfo = "*"
unicode-width = "*"
ratatui = "*"
crossterm = "*"
duct = "*"
