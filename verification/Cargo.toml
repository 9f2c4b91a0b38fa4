[package]
name = "shapecraft"
version = "0.1.0"
edition = "2021"
publish = false

[dependencies]
bevy = { version = "=0.6.1", default-features = false, features = ["bevy_winit", "render", "png", "x11"] }
bevy_prototype_lyon = "=0.4.0"
bevy_rapier2d = "=0.12.1"
interpolation = "=0.2.0"
itertools = "=0.10.5"
nalgebra = "=0.30.1"
rand = "=0.8.8"
rapier2d = { version = "=0.12.0-alpha.0", default-features = false, features = ["dim2", "f32"] }
