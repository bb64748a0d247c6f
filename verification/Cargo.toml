[package]
name = "flashlight_tensor"
version = "0.1.0"
edition = "2021"
publish = false

[dependencies]
bytemuck = "1"
rand = "0.9"
tokio = { version = "1", features = ["macros", "rt-multi-thread"] }
