[package]
name = "minibrowser"
version = "0.1.0"
edition = "2021"
publish = false

[dependencies]
textwrap = "0.11"
piston_window = "*"
find_folder = "*"
