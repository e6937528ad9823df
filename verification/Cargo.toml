[package]
name = "shadow_runner"
version = "0.1.0"
edition = "2021"
publish = false

[dependencies]
bevy = { version = "=0.15.3", default-features = false }
bevy_ecs_ldtk = "=0.11.0"
bevy_light_2d = "=0.5.0"
better_default = "=1.0.5"
log = "=0.4.34"
