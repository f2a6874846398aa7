[package]
name = "tileworld"
version = "0.1.0"
edition = "2021"
publish = false

[dependencies]
failure = "0.1.8"
nphysics2d = "0.24.0"
piston = "1.0.0"
piston2d-graphics = "0.45.0"
piston2d-opengl_graphics = "0.89.0"
pistoncore-glutin_window = "0.73.2"
tiled = { version = "0.16.0", default-features = false }
