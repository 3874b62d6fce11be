[package]
name = "emergence_lib"
version = "0.1.0"
edition = "2021"
publish = false

[dependencies]
bevy = { version = "0.9", default-features = false }
bevy_ecs_tilemap = "0.9"
itertools = "0.10"
