[package]
name = "ray_bvh"
version = "0.1.0"
edition = "2021"
publish = false

[dependencies]
crossterm = "0.19"
rand = "0.8"
terminal_size = "0.1"
tobj = "3"
