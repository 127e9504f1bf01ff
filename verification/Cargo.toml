[package]
name = "solar_system"
version = "0.1.0"
edition = "2021"
publish = false

[dependencies]
gl = "0.14"
glfw = "*"
glm = "0.2"
lazy_static = "1"
stb_image = "0.2"
