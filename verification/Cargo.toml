[package]
name = "james_shell"
version = "0.1.0"
edition = "2021"
publish = false

[dependencies]
crossterm = "*"
ctrlc = "*"
glob = "*"
libc = "*"
os_pipe = "*"
