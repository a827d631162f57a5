[package]
name = "path_utils"
version = "0.1.0"
edition = "2021"
publish = false

[dependencies]
euclid = "*"
lyon_geom = "*"
lyon_path = "*"
