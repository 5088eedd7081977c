[package]
name = "hmmlearn"
version = "1.0.0"
edition = "2021"

[dependencies]
libm = "0.2"
nalgebra = "0.33"
ndarray = "0.16"
