[package]
name = "entity_hierarchy"
version = "0.1.0"
edition = "2021"
publish = false

[dependencies]
smallvec = "1"
bevy_ecs = { version = "0.14", default-features = false }
bevy_app = { version = "0.14", default-features = false }
