[package]
name = "cubesphere"
version = "0.1.0"
edition = "2021"
publish = false

[dependencies]
cgmath = "0.17"
genmesh = "0.6"
gfx = "0.18"
gfx_window_glutin = "0.31"
glutin = "0.21"
palette = "0.4"
