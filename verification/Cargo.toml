[package]
name = "inksy"
version = "0.1.0"
edition = "2021"
publish = false

[dependencies]
png = "0.17"
kdl = "4"
bytemuck = { version = "1", features = ["derive"] }
fast-srgb8 = "1"
pollster = "0.3"
futures-intrusive = "0.5"
dirs = "5"
env_logger = "0.10"
