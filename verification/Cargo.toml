[package]
name = "polygon_boolops"
version = "0.1.0"
edition = "2021"
publish = false

[dependencies]
geo = "=0.33.1"
spade = "=2.15.1"
baby_shark = "=0.1.6"
nalgebra = "=0.31.4"
thiserror = "=1.0.69"
