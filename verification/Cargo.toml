[package]
name = "ahoy_kcc"
version = "0.1.0"
edition = "2021"
publish = false

[dependencies]
avian3d = { version = "=0.7.0", default-features = false, features = ["3d", "f32", "parry-f32"] }
bevy_app = { version = "=0.19.1", default-features = false, features = ["std"] }
bevy_ecs = { version = "=0.19.1", default-features = false, features = ["std"] }
bevy_math = { version = "=0.19.1", default-features = false, features = ["std"] }
bevy_time = { version = "=0.19.1", default-features = false, features = ["std"] }
bevy_transform = { version = "=0.19.1", default-features = false, features = ["std", "bevy-support"] }
tracing = { version = "=0.1.44", default-features = false, features = ["std"] }
