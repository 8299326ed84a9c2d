[package]
name = "sph_pipeline"
version = "0.1.0"
edition = "2021"
publish = false

[dependencies]
bytemuck = { version = "=1.25.2", features = ["derive", "extern_crate_alloc"] }
encase = "=0.10.0"
rand = "=0.9.5"
rand_distr = "=0.5.1"
bevy = { version = "=0.16.1", default-features = false, features = ["std", "bevy_asset", "bevy_core_pipeline", "bevy_log", "bevy_render", "bevy_window", "bevy_winit", "x11"] }
