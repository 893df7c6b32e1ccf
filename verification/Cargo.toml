[package]
name = "raytracer"
version = "0.1.0"
edition = "2021"
publish = false

[dependencies]
rand = "0.8"
image = "0.24"
console = "0.15"
indicatif = "0.17"
tobj = "3"
radiant = "*"
