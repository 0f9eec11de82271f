[package]
name = "nvim_ui"
version = "0.1.0"
edition = "2021"
publish = false

[dependencies]
neovim-lib = "*"
