[package]
name = "relu_kernels"
version = "0.1.0"
edition = "2021"
publish = false

[dependencies]
ndarray = "=0.15.6"
rand = "=0.8.8"
rand_distr = "=0.4.3"
rayon = "=1.12.0"
sprs = "=0.11.6"
