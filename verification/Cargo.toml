[package]
name = "shader_crusher"
version = "0.7.0"
edition = "2021"
publish = false

[dependencies]
clap = "4"
entropy = "0.4"
libc = "0.2"

[dev-dependencies]
glsl = "7.0.0"
