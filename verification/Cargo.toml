[package]
name = "scene_switch"
version = "0.1.0"
edition = "2021"
publish = false

[dependencies]
config = { version = "=0.10.1", default-features = false, features = ["toml"] }
fastly = "=0.6.0"
log = "=0.4.34"
log-fastly = "=0.1.4"

[dev-dependencies]
regex = "=1.13.1"
