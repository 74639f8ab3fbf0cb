[package]
name = "nsv"
version = "0.1.0"
edition = "2021"
publish = false

[dependencies]
num-bigint = "0.4"
fontconfig = "*"
piston = "*"
piston_window = "*"
piston2d-graphics = "*"
piston2d-opengl_graphics = "*"
pistoncore-sdl2_window = "*"
