[package]
name = "piston_tutorial"
version = "0.1.0"
edition = "2021"
publish = false

[dependencies]
piston_window = "0.148.0"
piston2d-gfx_graphics = "*"
find_folder = "0.3.0"
gfx = "*"
gfx_device_gl = "*"
nalgebra = "0.30"
ncollide2d = "0.33"
