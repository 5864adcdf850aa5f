[package]
name = "combat_demo"
version = "0.1.0"
edition = "2021"
publish = false

[dependencies]
bevy_ecs = "*"
crossbeam = "*"
enumflags2 = "*"
fixed = "*"
glam = "*"
hecs = "*"
macroquad = "*"
nalgebra = "*"
slotmap = "*"
smallvec = "*"
triple_buffer = "*"
