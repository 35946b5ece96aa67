[package]
name = "sci"
version = "0.1.0"
edition = "2021"
publish = false

[dependencies]
bitstream-io = "1"
itertools = "0.10"
rand = "0.8"
chrono = "0.4"
sdl2 = "0.35"
log = "0.4"
env_logger = "0.10"
