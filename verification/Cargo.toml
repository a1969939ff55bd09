[package]
name = "r_tools"
version = "0.1.0"
edition = "2021"
publish = false

[dependencies]
regex = "=1.13.1"
content_inspector = "=0.2.4"
humantime = "=2.4.0"
png = "=0.18.1"
serde = { version = "=1.0.229", features = ["derive"] }
serde_json = "=1.0.154"
anyhow = "=1.0.104"
clap = { version = "=4.6.7", features = ["derive"] }
chrono = "=0.4.45"
colored = "=3.1.1"
nix = { version = "=0.31.3", features = ["signal", "fs", "process"] }
tokio = { version = "=1.54.1", features = ["full"] }
ignore = "=0.4.34"
csscolorparser = "=0.9.0"
tiny-skia = "=0.12.0"
smallvec = "=1.16.4"
crossbeam = "=0.8.5"
log = "=0.4.35"
env_logger = "=0.11.11"
calloop = "=0.14.5"
calloop-wayland-source = "=0.4.1"
smithay-client-toolkit = { version = "=0.20.0", default-features = false, features = ["calloop"] }
wayland-client = "=0.31.15"
winit = { version = "=0.30.13", default-features = false, features = ["rwh_06", "x11"] }
softbuffer = { version = "=0.4.8", default-features = false, features = ["x11", "x11-dlopen"] }
async-openai = { version = "=0.43.0", default-features = false, features = ["audio"] }
ashpd = { version = "=0.13.13", features = ["screencast"] }
