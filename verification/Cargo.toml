[package]
name = "web_max_area_data_collection"
version = "0.1.0"
edition = "2021"
publish = false

[dependencies]
rand = "=0.9.5"
rand_distr = "=0.5.1"
nalgebra-glm = { version = "=0.21.0", features = ["convert-bytemuck", "serde-serialize"] }
serde = { version = "=1.0.229", features = ["derive"] }
postcard = { version = "=1.1.3", features = ["alloc"] }
bytemuck = { version = "=1.25.2", features = ["derive"] }
csv = "=1.4.0"
log = "=0.4.35"
env_logger = "=0.11.11"
anyhow = "=1.0.104"
chrono = "=0.4.45"
num_cpus = "=1.17.0"
pollster = "=1.0.1"
futures = "=0.3.34"
wgpu = "=30.0.1"
winit = "=0.30.13"
rfd = "=0.17.2"
